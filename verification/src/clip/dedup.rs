//! The content hash that recognises a copy seen before, and the short
//! preview a history row shows.

use sha2::{Digest, Sha256};
use vstd::prelude::*;

use super::model::{kind_code, Capture, EntryKind, Flavor, PREVIEW_CHARS};
use crate::text::{
    all_ws, chars_of, cv, decode_lossy, is_blank, is_control, is_ctrl, is_whitespace, is_ws,
    lines, slice_range, split_lines, string_of, trim, trimmed, utf8_lossy,
};

verus! {

/// The most columns of indentation a preview line keeps.
pub const INDENT_CHARS: usize = 8;

/// What `Sha256::digest` computes of `data`.
pub uninterp spec fn sha256_of(data: Seq<u8>) -> Seq<u8>;

/// The SHA-256 digest of `data`, by the `sha2` crate.
#[verifier::external_body]
fn sha256(data: &[u8]) -> (r: [u8; 32])
    ensures
        r@ == sha256_of(data@),
{
    Sha256::digest(data).into()
}

/// The UTF-8 encoding of `s`.
pub open spec fn utf8(s: Seq<char>) -> Seq<u8> {
    vstd::utf8::encode_utf8(s)
}

/// The bytes the hash is taken of: the kind's number, then the primary
/// flavour's body, the text of a text entry trimmed of surrounding space.
pub open spec fn hashed_bytes(kind: EntryKind, flavors: Seq<Flavor>) -> Seq<u8> {
    seq![kind_code(kind) as u8] + if flavors.len() == 0 {
        Seq::<u8>::empty()
    } else if kind == EntryKind::Text {
        utf8(trim(utf8_lossy(flavors[0].body@)))
    } else {
        flavors[0].body@
    }
}

/// The hash of a capture: that of its kind and flavours.
pub fn hash(capture: &Capture) -> (r: [u8; 32])
    ensures
        r@ == sha256_of(hashed_bytes(capture.kind, capture.flavors@)),
{
    hash_flavors(capture.kind, capture.flavors.as_slice())
}

/// The hash that identifies content: of the kind and the primary flavour
/// only, the text of a text entry without its surrounding whitespace.
pub fn hash_flavors(kind: EntryKind, flavors: &[Flavor]) -> (r: [u8; 32])
    ensures
        r@ == sha256_of(hashed_bytes(kind, flavors@)),
{
    let mut data: Vec<u8> = Vec::new();
    data.push(kind.code() as u8);
    if flavors.len() > 0 {
        if kind == EntryKind::Text {
            let text = trimmed(decode_lossy(flavors[0].body.as_slice()).as_slice());
            let spelled = string_of(text.as_slice());
            let bytes = spelled.as_str().as_bytes();
            data.extend_from_slice(bytes);
        } else {
            data.extend_from_slice(flavors[0].body.as_slice());
        }
    }
    assert(data@ =~= hashed_bytes(kind, flavors@));
    sha256(data.as_slice())
}

/// Two captures of one kind whose primary flavours agree hash alike,
/// whatever other flavours they carry.
pub proof fn hash_reads_only_the_primary(kind: EntryKind, a: Seq<Flavor>, b: Seq<Flavor>)
    requires
        a.len() > 0,
        b.len() > 0,
        a[0].body@ == b[0].body@,
    ensures
        hashed_bytes(kind, a) == hashed_bytes(kind, b),
{
}

/// Text that differs only in the whitespace around it hashes alike.
pub proof fn hash_ignores_surrounding_whitespace(a: Seq<Flavor>, b: Seq<Flavor>)
    requires
        a.len() > 0,
        b.len() > 0,
        trim(utf8_lossy(a[0].body@)) == trim(utf8_lossy(b[0].body@)),
    ensures
        hashed_bytes(EntryKind::Text, a) == hashed_bytes(EntryKind::Text, b),
{
}

/// Text copies are told apart by exactly their trimmed text: two of them
/// are hashed from the same bytes if and only if their texts, trimmed of
/// surrounding whitespace, are the same, letter case included; and what
/// follows the kind's byte is the UTF-8 of that trimmed text.
pub proof fn text_hashes_tell_trimmed_texts_apart(a: Seq<Flavor>, b: Seq<Flavor>)
    requires
        a.len() > 0,
        b.len() > 0,
    ensures
        hashed_bytes(EntryKind::Text, a) == hashed_bytes(EntryKind::Text, b) <==> trim(utf8_lossy(a[0].body@))
            == trim(utf8_lossy(b[0].body@)),
        hashed_bytes(EntryKind::Text, a)[0] == 0,
        vstd::utf8::decode_utf8(hashed_bytes(EntryKind::Text, a).drop_first()) == trim(utf8_lossy(a[0].body@)),
{
    let ta = trim(utf8_lossy(a[0].body@));
    let tb = trim(utf8_lossy(b[0].body@));
    let ha = hashed_bytes(EntryKind::Text, a);
    let hb = hashed_bytes(EntryKind::Text, b);
    assert(ha.drop_first() =~= utf8(ta));
    assert(hb.drop_first() =~= utf8(tb));
    vstd::utf8::encode_utf8_decode_utf8(ta);
    vstd::utf8::encode_utf8_decode_utf8(tb);
    if ha == hb {
        assert(ha.drop_first() == hb.drop_first());
    }
}

/// The same flavours under two different kinds are hashed from different
/// bytes: the kinds never collide by construction.
pub proof fn kinds_are_hashed_apart(k1: EntryKind, k2: EntryKind, flavors: Seq<Flavor>)
    requires
        k1 != k2,
    ensures
        hashed_bytes(k1, flavors) != hashed_bytes(k2, flavors),
{
    assert(hashed_bytes(k1, flavors)[0] != hashed_bytes(k2, flavors)[0]);
}

/// `n` spaces.
pub open spec fn spaces(n: nat) -> Seq<char> {
    Seq::new(n, |i: int| ' ')
}

/// The columns of indentation `line` begins with, a tab counting four.
pub open spec fn indent_width(line: Seq<char>) -> nat
    decreases line.len(),
{
    if line.len() > 0 && line[0] == ' ' {
        1 + indent_width(line.drop_first())
    } else if line.len() > 0 && line[0] == '\t' {
        4 + indent_width(line.drop_first())
    } else {
        0
    }
}

/// The words of a line, joined by single spaces, control characters dropped:
/// the text so far and whether a space is owed before the next word.
pub open spec fn words(s: Seq<char>) -> (Seq<char>, bool)
    decreases s.len(),
{
    if s.len() == 0 {
        (seq![], false)
    } else {
        let (out, pending) = words(s.drop_last());
        let c = s.last();
        if is_ws(c) {
            (out, true)
        } else if is_ctrl(c) {
            (out, pending)
        } else if pending {
            (out + seq![' ', c], false)
        } else {
            (out.push(c), false)
        }
    }
}

/// A line as a preview shows it: its indentation kept up to
/// `INDENT_CHARS` columns, runs of whitespace inside it collapsed to one
/// space, control characters dropped, and nothing at all where nothing
/// but whitespace would remain.
pub open spec fn clean(line: Seq<char>) -> Seq<char> {
    let indent = if indent_width(line) > INDENT_CHARS {
        INDENT_CHARS as nat
    } else {
        indent_width(line)
    };
    let cleaned = spaces(indent) + words(trim(line)).0;
    if all_ws(cleaned) {
        seq![]
    } else {
        cleaned
    }
}

/// The state of a preview being built: the text, the characters taken, a
/// blank line owed, and whether the budget is spent.
pub struct Summary {
    pub text: Seq<char>,
    pub taken: nat,
    pub blank: bool,
    pub done: bool,
}

/// One more line added to a preview.
pub open spec fn summary_step(st: Summary, line: Seq<char>) -> Summary {
    if st.done {
        st
    } else {
        let cleaned = clean(line);
        if cleaned.len() == 0 {
            Summary { blank: st.text.len() > 0, ..st }
        } else {
            let sep = if st.text.len() == 0 {
                seq![]
            } else if st.blank {
                seq!['\n', '\n']
            } else {
                seq!['\n']
            };
            let taken = st.taken + cleaned.len() + 1;
            Summary {
                text: st.text + sep + cleaned,
                taken: taken,
                blank: false,
                done: taken >= PREVIEW_CHARS,
            }
        }
    }
}

/// The preview built from `ls`, line by line.
pub open spec fn summary_of(ls: Seq<Seq<char>>) -> Summary
    decreases ls.len(),
{
    if ls.len() == 0 {
        Summary { text: seq![], taken: 0, blank: false, done: false }
    } else {
        summary_step(summary_of(ls.drop_last()), ls.last())
    }
}

/// At most the first `n` of `s`.
pub open spec fn cut(s: Seq<char>, n: nat) -> Seq<char> {
    if s.len() <= n {
        s
    } else {
        s.take(n as int)
    }
}

/// The preview of some text: its lines cleaned, blank lines between them
/// kept as one, lines taken until the budget of `PREVIEW_CHARS` is spent,
/// and the result cut at that many characters.
pub open spec fn summarise_spec(text: Seq<char>) -> Seq<char> {
    cut(summary_of(lines(trim(text))).text, PREVIEW_CHARS as nat)
}

/// The last part of a path or URI that is not empty; the whole where none is.
pub open spec fn last_part(s: Seq<char>, whole: Seq<char>) -> Seq<char>
    decreases s.len(),
{
    let i = rfind(s, '/');
    proof {
        lemma_rfind_bound(s, '/');
    }
    let seg = s.skip(i + 1);
    if seg.len() > 0 {
        seg
    } else if i < 0 {
        whole
    } else {
        last_part(s.take(i), whole)
    }
}

/// The index of the last `c` in `s`, or -1.
pub open spec fn rfind(s: Seq<char>, c: char) -> int
    decreases s.len(),
{
    if s.len() == 0 {
        -1
    } else if s.last() == c {
        s.len() - 1
    } else {
        rfind(s.drop_last(), c)
    }
}

pub proof fn lemma_rfind_bound(s: Seq<char>, c: char)
    ensures
        -1 <= rfind(s, c) < s.len(),
    decreases s.len(),
{
    if s.len() > 0 && s.last() != c {
        lemma_rfind_bound(s.drop_last(), c);
    }
}

/// The name a file list shows for one of its lines.
pub open spec fn basename_spec(uri: Seq<char>) -> Seq<char> {
    last_part(uri, uri)
}

/// The names of the files a URI list holds: its lines, trimmed, without
/// blank lines and comments.
pub open spec fn file_names(ls: Seq<Seq<char>>) -> Seq<Seq<char>>
    decreases ls.len(),
{
    if ls.len() == 0 {
        seq![]
    } else {
        let names = file_names(ls.drop_last());
        let line = trim(ls.last());
        if line.len() > 0 && line[0] != '#' {
            names.push(basename_spec(line))
        } else {
            names
        }
    }
}

/// `parts` joined by `sep`.
pub open spec fn join(parts: Seq<Seq<char>>, sep: Seq<char>) -> Seq<char>
    decreases parts.len(),
{
    if parts.len() == 0 {
        seq![]
    } else if parts.len() == 1 {
        parts[0]
    } else {
        join(parts.drop_last(), sep) + sep + parts.last()
    }
}

/// The preview of a capture: none for an image or an empty capture, the
/// names of the files for a file list, and the summarised text otherwise.
pub open spec fn preview_spec(kind: EntryKind, flavors: Seq<Flavor>) -> Seq<char> {
    if flavors.len() == 0 {
        seq![]
    } else {
        let text = utf8_lossy(flavors[0].body@);
        match kind {
            EntryKind::Image => seq![],
            EntryKind::Files => summarise_spec(join(file_names(lines(text)), ", "@)),
            EntryKind::Text => summarise_spec(text),
        }
    }
}

/// The preview a history row shows for a capture.
pub fn preview(capture: &Capture) -> (r: String)
    ensures
        r@ == preview_spec(capture.kind, capture.flavors@),
{
    let Some(flavor) = capture.primary() else {
        return string_of(Vec::<char>::new().as_slice());
    };
    match capture.kind {
        EntryKind::Image => string_of(Vec::<char>::new().as_slice()),
        EntryKind::Files => {
            let text = decode_lossy(flavor.body.as_slice());
            let ls = split_lines(text.as_slice());
            let mut names: Vec<Vec<char>> = Vec::new();
            let mut i: usize = 0;
            while i < ls.len()
                invariant
                    i <= ls.len(),
                    cv(names@) == file_names(cv(ls@).take(i as int)),
                decreases ls.len() - i,
            {
                proof {
                    assert(cv(ls@).take(i + 1).drop_last() =~= cv(ls@).take(i as int));
                    assert(cv(ls@).take(i + 1).last() == ls@[i as int]@);
                }
                let line = trimmed(ls[i].as_slice());
                if line.len() > 0 && line[0] != '#' {
                    let ghost before = names@;
                    names.push(basename(line.as_slice()));
                    assert(cv(names@) =~= cv(before).push(basename_spec(line@)));
                }
                i += 1;
            }
            assert(cv(ls@).take(i as int) =~= cv(ls@));
            let joined = join_with(names.as_slice(), chars_of(", ").as_slice());
            summarise(joined.as_slice())
        },
        EntryKind::Text => {
            let text = decode_lossy(flavor.body.as_slice());
            summarise(text.as_slice())
        },
    }
}

/// `parts` joined by `sep`.
fn join_with(parts: &[Vec<char>], sep: &[char]) -> (r: Vec<char>)
    ensures
        r@ == join(cv(parts@), sep@),
{
    let mut out: Vec<char> = Vec::new();
    let mut i: usize = 0;
    while i < parts.len()
        invariant
            i <= parts.len(),
            out@ == join(cv(parts@).take(i as int), sep@),
        decreases parts.len() - i,
    {
        let ghost before = out@;
        proof {
            assert(cv(parts@).take(i + 1).drop_last() =~= cv(parts@).take(i as int));
            assert(cv(parts@).take(i + 1).last() == parts@[i as int]@);
        }
        if i > 0 {
            out.extend_from_slice(sep);
        }
        out.extend_from_slice(parts[i].as_slice());
        proof {
            if i == 0 {
                assert(cv(parts@).take(1)[0] == parts@[0]@);
                assert(out@ =~= join(cv(parts@).take(1), sep@));
            } else {
                assert(out@ =~= before + sep@ + parts@[i as int]@);
            }
        }
        i += 1;
    }
    assert(cv(parts@).take(i as int) =~= cv(parts@));
    out
}

/// The index of the last `c` in `s[..end]`, if any.
fn rfind_in(s: &[char], end: usize, c: char) -> (r: Option<usize>)
    requires
        end <= s.len(),
    ensures
        match r {
            Some(i) => i < end && rfind(s@.take(end as int), c) == i,
            None => rfind(s@.take(end as int), c) == -1,
        },
{
    let mut k: usize = end;
    while k > 0
        invariant
            k <= end <= s.len(),
            rfind(s@.take(end as int), c) == rfind(s@.take(k as int), c),
        decreases k,
    {
        proof {
            assert(s@.take(k as int).drop_last() =~= s@.take(k - 1));
            assert(s@.take(k as int).last() == s@[k - 1]);
        }
        if s[k - 1] == c {
            return Some(k - 1);
        }
        k -= 1;
    }
    None
}

/// The last part of a path or URI that is not empty; the whole where none is.
fn basename(uri: &[char]) -> (r: Vec<char>)
    ensures
        r@ == basename_spec(uri@),
{
    let mut end: usize = uri.len();
    assert(uri@.take(end as int) =~= uri@);
    loop
        invariant
            end <= uri.len(),
            last_part(uri@.take(end as int), uri@) == basename_spec(uri@),
        decreases end,
    {
        let ghost s = uri@.take(end as int);
        match rfind_in(uri, end, '/') {
            Some(i) => {
                assert(s.skip(i + 1) =~= uri@.subrange(i + 1, end as int));
                if i + 1 < end {
                    return slice_range(uri, i + 1, end);
                }
                assert(s.take(i as int) =~= uri@.take(i as int));
                end = i;
            },
            None => {
                assert(s.skip(0) =~= s);
                if end > 0 {
                    return slice_range(uri, 0, end);
                }
                return slice_range(uri, 0, uri.len());
            },
        }
    }
}

/// The columns of indentation `line` begins with, up to `INDENT_CHARS`.
fn indent(line: &[char]) -> (r: usize)
    ensures
        r == if indent_width(line@) > INDENT_CHARS {
            INDENT_CHARS as nat
        } else {
            indent_width(line@)
        },
{
    let mut acc: usize = 0;
    let mut i: usize = 0;
    assert(line@.skip(0) =~= line@);
    while i < line.len() && (line[i] == ' ' || line[i] == '\t')
        invariant
            i <= line.len(),
            acc <= INDENT_CHARS,
            ({
                let total = indent_width(line@.skip(i as int)) + (acc as nat);
                let full = indent_width(line@);
                (full >= INDENT_CHARS && acc == INDENT_CHARS) || (full < INDENT_CHARS + 1
                    && total == full) || (acc < INDENT_CHARS && total == full)
            }),
        decreases line.len() - i,
    {
        let w: usize = if line[i] == '\t' {
            4
        } else {
            1
        };
        proof {
            let rest = line@.skip(i as int);
            assert(rest[0] == line@[i as int]);
            assert(rest.drop_first() =~= line@.skip(i + 1));
        }
        acc = if acc + w > INDENT_CHARS {
            INDENT_CHARS
        } else {
            acc + w
        };
        i += 1;
    }
    proof {
        let rest = line@.skip(i as int);
        if i < line.len() {
            assert(rest[0] == line@[i as int]);
        }
        assert(indent_width(rest) == 0);
    }
    acc
}

/// A line as a preview shows it.
fn clean_line(line: &[char]) -> (r: Vec<char>)
    ensures
        r@ == clean(line@),
{
    let n = indent(line);
    let mut out: Vec<char> = Vec::new();
    let mut k: usize = 0;
    while k < n
        invariant
            k <= n,
            out@ == spaces(k as nat),
        decreases n - k,
    {
        out.push(' ');
        k += 1;
        assert(out@ =~= spaces(k as nat));
    }
    let body = trimmed(line);
    let mut pending = false;
    let mut i: usize = 0;
    while i < body.len()
        invariant
            i <= body.len(),
            out@ == spaces(n as nat) + words(body@.take(i as int)).0,
            pending == words(body@.take(i as int)).1,
        decreases body.len() - i,
    {
        proof {
            assert(body@.take(i + 1).drop_last() =~= body@.take(i as int));
            assert(body@.take(i + 1).last() == body@[i as int]);
        }
        let c = body[i];
        let ghost before = out@;
        if is_whitespace(c) {
            pending = true;
        } else if is_control(c) {
        } else {
            if pending {
                out.push(' ');
                pending = false;
            }
            out.push(c);
        }
        proof {
            let ghost w = words(body@.take(i as int)).0;
            if !is_ws(c) && !is_ctrl(c) {
                if words(body@.take(i as int)).1 {
                    assert(out@ =~= spaces(n as nat) + (w + seq![' ', c]));
                } else {
                    assert(out@ =~= spaces(n as nat) + w.push(c));
                }
            }
        }
        i += 1;
    }
    assert(body@.take(i as int) =~= body@);
    if is_blank(out.as_slice()) {
        Vec::new()
    } else {
        out
    }
}

/// The preview of some text.
fn summarise(text: &[char]) -> (r: String)
    ensures
        r@ == summarise_spec(text@),
{
    let body = trimmed(text);
    let ls = split_lines(body.as_slice());
    let mut out: Vec<char> = Vec::new();
    let mut taken: usize = 0;
    let mut blank = false;
    let mut i: usize = 0;
    while i < ls.len()
        invariant
            i <= ls.len(),
            cv(ls@) == lines(trim(text@)),
            ({
                let st = summary_of(cv(ls@).take(i as int));
                &&& !st.done
                &&& st.text == out@
                &&& st.taken == taken as nat
                &&& st.blank == blank
                &&& taken < PREVIEW_CHARS
            }),
        decreases ls.len() - i,
    {
        proof {
            assert(cv(ls@).take(i + 1).drop_last() =~= cv(ls@).take(i as int));
            assert(cv(ls@).take(i + 1).last() == ls@[i as int]@);
        }
        let cleaned = clean_line(ls[i].as_slice());
        if cleaned.len() == 0 {
            blank = out.len() > 0;
        } else {
            let ghost before = out@;
            if out.len() > 0 {
                out.push('\n');
                if blank {
                    out.push('\n');
                }
            }
            blank = false;
            out.extend_from_slice(cleaned.as_slice());
            proof {
                if before.len() == 0 {
                    assert(out@ =~= before + seq![] + cleaned@);
                } else if summary_of(cv(ls@).take(i as int)).blank {
                    assert(out@ =~= before + seq!['\n', '\n'] + cleaned@);
                } else {
                    assert(out@ =~= before + seq!['\n'] + cleaned@);
                }
            }
            if cleaned.len() >= PREVIEW_CHARS - 1 - taken {
                proof {
                    let st = summary_of(cv(ls@).take(i as int));
                    assert(clean(ls@[i as int]@) == cleaned@);
                    assert(summary_of(cv(ls@).take(i + 1)) == summary_step(st, ls@[i as int]@));
                    assert(summary_of(cv(ls@).take(i + 1)).done);
                    assert(summary_of(cv(ls@).take(i + 1)).text == out@);
                    lemma_summary_done_stays(cv(ls@), i + 1);
                    assert(cv(ls@).take(ls.len() as int) =~= cv(ls@));
                }
                let r = finish(out.as_slice(), Ghost(summary_of(cv(ls@)).text));
                assert(cv(ls@) == lines(trim(text@)));
                return r;
            }
            taken = taken + cleaned.len() + 1;
        }
        i += 1;
    }
    assert(cv(ls@).take(i as int) =~= cv(ls@));
    finish(out.as_slice(), Ghost(summary_of(cv(ls@)).text))
}

/// Once the budget is spent, later lines change nothing.
proof fn lemma_summary_done_stays(ls: Seq<Seq<char>>, k: int)
    requires
        0 <= k <= ls.len(),
        summary_of(ls.take(k)).done,
    ensures
        summary_of(ls) == summary_of(ls.take(k)),
    decreases ls.len() - k,
{
    if k < ls.len() {
        assert(ls.take(k + 1).drop_last() =~= ls.take(k));
        lemma_summary_done_stays(ls, k + 1);
    } else {
        assert(ls.take(k) =~= ls);
    }
}

fn finish(text: &[char], Ghost(expected): Ghost<Seq<char>>) -> (r: String)
    requires
        text@ == expected,
    ensures
        r@ == cut(expected, PREVIEW_CHARS as nat),
{
    if text.len() <= PREVIEW_CHARS {
        string_of(text)
    } else {
        let kept = slice_range(text, 0, PREVIEW_CHARS);
        assert(kept@ =~= text@.take(PREVIEW_CHARS as int));
        string_of(kept.as_slice())
    }
}

/// A character a preview shows as it is: neither whitespace nor a control
/// character.
pub open spec fn plain(c: char) -> bool {
    !is_ws(c) && !is_ctrl(c)
}

/// Whether a line of `s` begins at `k`.
pub open spec fn line_start(s: Seq<char>, k: int) -> bool {
    k == 0 || s[k - 1] == '\n'
}

/// Whether `s` holds `n` spaces from `k` on.
pub open spec fn spaces_at(s: Seq<char>, k: int, n: int) -> bool {
    &&& 0 <= k
    &&& k + n <= s.len()
    &&& forall|i: int| k <= i < k + n ==> #[trigger] s[i] == ' '
}

/// Whether `s` has three newlines in a row.
pub open spec fn three_newlines(s: Seq<char>) -> bool {
    exists|k: int| 0 <= k && k + 2 < s.len() && #[trigger] s[k] == '\n' && s[k + 1] == '\n' && s[k + 2] == '\n'
}

/// The shape every preview has: newlines, spaces and plain characters
/// only, never three newlines in a row, and no line beginning with more
/// than `INDENT_CHARS + 1` spaces.
pub open spec fn tidy(t: Seq<char>) -> bool {
    &&& forall|i: int| 0 <= i < t.len() ==> #[trigger] t[i] == '\n' || t[i] == ' ' || plain(t[i])
    &&& !three_newlines(t)
    &&& forall|k: int| 0 <= k < t.len() && line_start(t, k) ==> !#[trigger] spaces_at(t, k, INDENT_CHARS + 2)
}

proof fn lemma_words(s: Seq<char>)
    ensures
        ({
            let out = words(s).0;
            &&& forall|i: int| 0 <= i < out.len() ==> #[trigger] out[i] == ' ' || plain(out[i])
            &&& out.len() > 0 ==> plain(out.last())
            &&& out.len() > 0 ==> plain(out[0]) || (out.len() >= 2 && out[0] == ' ' && plain(out[1]))
        }),
    decreases s.len(),
{
    if s.len() > 0 {
        lemma_words(s.drop_last());
    }
}

/// A cleaned line: spaces and plain characters only, ending in a plain
/// one, and with a plain character among its first `INDENT_CHARS + 2`.
proof fn lemma_clean(line: Seq<char>)
    ensures
        ({
            let c = clean(line);
            &&& forall|i: int| 0 <= i < c.len() ==> #[trigger] c[i] == ' ' || plain(c[i])
            &&& c.len() > 0 ==> plain(c.last())
            &&& c.len() > 0 ==> !spaces_at(c, 0, INDENT_CHARS + 2)
        }),
{
    let w = words(trim(line)).0;
    lemma_words(trim(line));
    let indent = if indent_width(line) > INDENT_CHARS {
        INDENT_CHARS as nat
    } else {
        indent_width(line)
    };
    let cleaned = spaces(indent) + w;
    if w.len() == 0 {
        assert(cleaned =~= spaces(indent));
        assert(all_ws(cleaned));
    } else {
        assert(cleaned[cleaned.len() - 1] == w.last());
        assert(!all_ws(cleaned)) by {
            assert(!is_ws(cleaned[cleaned.len() - 1]));
        }
        assert(cleaned[indent as int] == w[0]);
        if !plain(w[0]) {
            assert(cleaned[indent + 1int] == w[1]);
        }
        assert forall|i: int| 0 <= i < cleaned.len() implies #[trigger] cleaned[i] == ' ' || plain(cleaned[i]) by {
            if i >= indent {
                assert(cleaned[i] == w[i - indent]);
            }
        }
    }
}

/// Every preview being built is tidy, and ends in a plain character.
proof fn lemma_summary_tidy(ls: Seq<Seq<char>>)
    ensures
        tidy(summary_of(ls).text),
        summary_of(ls).text.len() > 0 ==> plain(summary_of(ls).text.last()),
    decreases ls.len(),
{
    if ls.len() > 0 {
        lemma_summary_tidy(ls.drop_last());
        let st = summary_of(ls.drop_last());
        let c = clean(ls.last());
        lemma_clean(ls.last());
        if !st.done && c.len() > 0 {
            let old = st.text;
            let o = old.len() as int;
            let sep: Seq<char> = if old.len() == 0 {
                seq![]
            } else if st.blank {
                seq!['\n', '\n']
            } else {
                seq!['\n']
            };
            let sl = sep.len() as int;
            let t = old + sep + c;
            assert(summary_of(ls).text == t);
            assert forall|i: int| 0 <= i < t.len() implies #[trigger] t[i] == (if i < o {
                old[i]
            } else if i < o + sl {
                '\n'
            } else {
                c[i - o - sl]
            }) by {}
            assert forall|i: int| 0 <= i < t.len() implies #[trigger] t[i] == '\n' || t[i] == ' ' || plain(t[i]) by {
                if i >= o + sl {
                    assert(c[i - o - sl] == ' ' || plain(c[i - o - sl]));
                } else if i < o {
                    assert(old[i] == '\n' || old[i] == ' ' || plain(old[i]));
                }
            }
            assert(plain(t.last())) by {
                assert(t[t.len() - 1] == c[c.len() - 1]);
            }
            assert(!three_newlines(t)) by {
                if three_newlines(t) {
                    let k = choose|k: int| 0 <= k && k + 2 < t.len() && #[trigger] t[k] == '\n' && t[k + 1] == '\n' && t[k + 2] == '\n';
                    if k + 2 >= o + sl {
                        assert(!plain('\n'));
                        assert(c[k + 2 - o - sl] == ' ' || plain(c[k + 2 - o - sl]));
                    } else if k < o && k + 2 >= o {
                        assert(t[o - 1] == old[o - 1]);
                        assert(old[o - 1] == old.last());
                        assert(k <= o - 1 <= k + 2);
                        assert(!plain('\n'));
                    } else if k + 2 < o {
                        assert(old[k] == '\n' && old[k + 1] == '\n' && old[k + 2] == '\n');
                        assert(three_newlines(old));
                    } else {
                        assert(sl <= 2);
                    }
                }
            }
            assert forall|k: int| 0 <= k < t.len() && line_start(t, k) implies !#[trigger] spaces_at(t, k, INDENT_CHARS + 2) by {
                if spaces_at(t, k, INDENT_CHARS + 2) {
                    assert(t[k] == ' ');
                    if k < o {
                        if k > 0 {
                            assert(t[k - 1] == old[k - 1]);
                        }
                        assert(line_start(old, k));
                        if o - 1 < k + INDENT_CHARS + 2 {
                            assert(t[o - 1] == ' ');
                            assert(t[o - 1] == old[o - 1]);
                            assert(old[o - 1] == old.last());
                        } else {
                            assert forall|i: int| k <= i < k + INDENT_CHARS + 2 implies #[trigger] old[i] == ' ' by {
                                assert(t[i] == ' ');
                                assert(t[i] == old[i]);
                            }
                            assert(spaces_at(old, k, INDENT_CHARS + 2));
                        }
                    } else if k < o + sl {
                        assert(t[k] == '\n');
                    } else if k > o + sl {
                        assert(t[k - 1] == c[k - 1 - o - sl]);
                        assert(c[k - 1 - o - sl] == ' ' || plain(c[k - 1 - o - sl]));
                        assert(!plain('\n'));
                    } else {
                        assert forall|i: int| 0 <= i < INDENT_CHARS + 2 implies #[trigger] c[i] == ' ' by {
                            assert(t[k + i] == ' ');
                            assert(t[k + i] == c[i]);
                        }
                        assert(spaces_at(c, 0, INDENT_CHARS + 2));
                    }
                }
            }
        }
    }
}

/// What is tidy stays tidy when cut short.
proof fn lemma_tidy_prefix(t: Seq<char>, m: int)
    requires
        tidy(t),
        0 <= m <= t.len(),
    ensures
        tidy(t.take(m)),
{
    let p = t.take(m);
    assert forall|i: int| 0 <= i < p.len() implies #[trigger] p[i] == '\n' || p[i] == ' ' || plain(p[i]) by {
        assert(p[i] == t[i]);
        assert(t[i] == '\n' || t[i] == ' ' || plain(t[i]));
    }
    assert(!three_newlines(p)) by {
        if three_newlines(p) {
            let k = choose|k: int| 0 <= k && k + 2 < p.len() && #[trigger] p[k] == '\n' && p[k + 1] == '\n' && p[k + 2] == '\n';
            assert(p[k] == t[k] && p[k + 1] == t[k + 1] && p[k + 2] == t[k + 2]);
            assert(three_newlines(t));
        }
    }
    assert forall|k: int| 0 <= k < p.len() && line_start(p, k) implies !#[trigger] spaces_at(p, k, INDENT_CHARS + 2) by {
        if k > 0 {
            assert(p[k - 1] == t[k - 1]);
        }
        assert(line_start(t, k));
        if spaces_at(p, k, INDENT_CHARS + 2) {
            assert forall|i: int| k <= i < k + INDENT_CHARS + 2 implies #[trigger] t[i] == ' ' by {
                assert(p[i] == ' ');
                assert(p[i] == t[i]);
            }
            assert(spaces_at(t, k, INDENT_CHARS + 2));
        }
    }
}

proof fn lemma_tidy_cut(t: Seq<char>, n: nat)
    requires
        tidy(t),
    ensures
        tidy(cut(t, n)),
{
    if t.len() > n {
        lemma_tidy_prefix(t, n as int);
    }
}

/// Every preview is tidy and at most `PREVIEW_CHARS` long: no control
/// character but the newline, never three newlines in a row (a run of blank
/// lines becomes one), and no line indented by more than
/// `INDENT_CHARS + 1` spaces.
pub proof fn previews_are_tidy(kind: EntryKind, flavors: Seq<Flavor>)
    ensures
        preview_spec(kind, flavors).len() <= PREVIEW_CHARS,
        tidy(preview_spec(kind, flavors)),
        forall|i: int| 0 <= i < preview_spec(kind, flavors).len() && is_ctrl(#[trigger] preview_spec(kind, flavors)[i])
            ==> preview_spec(kind, flavors)[i] == '\n',
{
    let r = preview_spec(kind, flavors);
    if flavors.len() > 0 && kind != EntryKind::Image {
        let text = utf8_lossy(flavors[0].body@);
        let source = match kind {
            EntryKind::Files => join(file_names(lines(text)), ", "@),
            _ => text,
        };
        lemma_summary_tidy(lines(trim(source)));
        lemma_tidy_cut(summary_of(lines(trim(source))).text, PREVIEW_CHARS as nat);
        assert(r == summarise_spec(source));
    } else {
        assert(r =~= seq![]);
    }
    assert forall|i: int| 0 <= i < r.len() && is_ctrl(#[trigger] r[i]) implies r[i] == '\n' by {
        assert(r[i] == '\n' || r[i] == ' ' || plain(r[i]));
    }
}

} // verus!
