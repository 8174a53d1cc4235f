//! Which application has the focus: the windows the compositor lists, the
//! application each belongs to, and the one activated last.

use vstd::prelude::*;

verus! {

/// The value of the `activated` state in a toplevel's state array.
pub const ACTIVATED: u32 = 2;

/// Four bytes read as a little-endian word.
pub open spec fn le_word(b0: u8, b1: u8, b2: u8, b3: u8) -> int {
    b0 + 256 * b1 + 65536 * b2 + 16777216 * b3
}

/// Four bytes read as a big-endian word.
pub open spec fn be_word(b0: u8, b1: u8, b2: u8, b3: u8) -> int {
    b3 + 256 * b2 + 65536 * b1 + 16777216 * b0
}

/// Whether `w` is the `k`-th whole word of `bytes` in one byte order or
/// the other.
pub open spec fn reads_as(bytes: Seq<u8>, k: int, w: u32) -> bool {
    let i = 4 * k;
    w == le_word(bytes[i], bytes[i + 1], bytes[i + 2], bytes[i + 3]) || w == be_word(
        bytes[i],
        bytes[i + 1],
        bytes[i + 2],
        bytes[i + 3],
    )
}

/// `u32::from_ne_bytes`: the word in the machine's byte order, which is
/// little- or big-endian; which one the contract leaves open.
#[verifier::external_body]
fn native_word(b0: u8, b1: u8, b2: u8, b3: u8) -> (r: u32)
    ensures
        r == le_word(b0, b1, b2, b3) || r == be_word(b0, b1, b2, b3),
{
    u32::from_ne_bytes([b0, b1, b2, b3])
}

/// The `k`-th whole word of `bytes`, read little-endian where `little` is
/// set and big-endian otherwise.
pub open spec fn word_at(bytes: Seq<u8>, k: int, little: bool) -> int {
    let i = 4 * k;
    if little {
        le_word(bytes[i], bytes[i + 1], bytes[i + 2], bytes[i + 3])
    } else {
        be_word(bytes[i], bytes[i + 1], bytes[i + 2], bytes[i + 3])
    }
}

/// Whether `words` are the whole words of `bytes`, each read in the order
/// `little` says.
pub open spec fn read_in_order(bytes: Seq<u8>, words: Seq<u32>, little: bool) -> bool {
    forall|k: int| 0 <= k < words.len() ==> #[trigger] words[k] == word_at(bytes, k, little)
}

/// Whether some whole word of `bytes`, read in the order `little` says, is
/// the activated state.
pub open spec fn activated_in(bytes: Seq<u8>, little: bool) -> bool {
    exists|k: int| 0 <= k < bytes.len() / 4 && #[trigger] word_at(bytes, k, little) == ACTIVATED
}

/// Four bytes read as a word in the order `little` says.
fn word_of(b0: u8, b1: u8, b2: u8, b3: u8, little: bool) -> (r: u32)
    ensures
        r == if little {
            le_word(b0, b1, b2, b3)
        } else {
            be_word(b0, b1, b2, b3)
        },
{
    if little {
        b0 as u32 + 256 * (b1 as u32) + 65536 * (b2 as u32) + 16777216 * (b3 as u32)
    } else {
        b3 as u32 + 256 * (b2 as u32) + 65536 * (b1 as u32) + 16777216 * (b0 as u32)
    }
}

/// The states in a toplevel's state array: one word per whole four bytes,
/// every word read in the machine's byte order (one order for all of them,
/// little- or big-endian, which the contract leaves open), a trailing
/// fragment ignored rather than misread.
pub fn states(bytes: &[u8]) -> (r: Vec<u32>)
    ensures
        r@.len() == bytes@.len() / 4,
        exists|little: bool| #[trigger] read_in_order(bytes@, r@, little),
        forall|k: int| 0 <= k < r@.len() ==> reads_as(bytes@, k, #[trigger] r@[k]),
{
    let little = native_word(1, 0, 0, 0) == 1;
    let mut words: Vec<u32> = Vec::new();
    let mut k: usize = 0;
    let n = bytes.len();
    let whole = n / 4;
    while k < whole
        invariant
            n == bytes@.len(),
            whole == bytes@.len() / 4,
            k <= whole,
            words@.len() == k,
            forall|j: int| 0 <= j < k ==> #[trigger] words@[j] == word_at(bytes@, j, little),
        decreases whole - k,
    {
        assert(4 * k + 3 < bytes@.len()) by (nonlinear_arith)
            requires
                k < whole,
                whole == bytes@.len() / 4,
        ;
        let i = 4 * k;
        let w = word_of(bytes[i], bytes[i + 1], bytes[i + 2], bytes[i + 3], little);
        words.push(w);
        k += 1;
    }
    assert forall|j: int| 0 <= j < words@.len() implies reads_as(bytes@, j, #[trigger] words@[j]) by {
        assert(words@[j] == word_at(bytes@, j, little));
    }
    assert(read_in_order(bytes@, words@, little));
    words
}

/// Whether the activated state is among `states`.
pub fn any_activated(states: &[u32]) -> (r: bool)
    ensures
        r == states@.contains(ACTIVATED),
{
    let mut i: usize = 0;
    while i < states.len()
        invariant
            i <= states@.len(),
            forall|j: int| 0 <= j < i ==> states@[j] != ACTIVATED,
        decreases states@.len() - i,
    {
        if states[i] == ACTIVATED {
            assert(states@[i as int] == ACTIVATED);
            return true;
        }
        i += 1;
    }
    false
}

/// Whether a toplevel's state array says it is activated: exactly when
/// one of its whole words, all read in the machine's byte order, is the
/// activated state. Fewer than four bytes say it is not.
pub fn is_activated(bytes: &[u8]) -> (r: bool)
    ensures
        bytes@.len() < 4 ==> !r,
        exists|little: bool| r == #[trigger] activated_in(bytes@, little),
        r ==> exists|k: int| 0 <= k < bytes@.len() / 4 && #[trigger] reads_as(bytes@, k, ACTIVATED),
{
    let words = states(bytes);
    let r = any_activated(words.as_slice());
    proof {
        let little = choose|little: bool| #[trigger] read_in_order(bytes@, words@, little);
        if r {
            let k = choose|k: int| 0 <= k < words@.len() && words@[k] == ACTIVATED;
            assert(reads_as(bytes@, k, words@[k]));
            assert(word_at(bytes@, k, little) == ACTIVATED);
        } else {
            assert forall|k: int| 0 <= k < bytes@.len() / 4 implies #[trigger] word_at(bytes@, k, little)
                != ACTIVATED by {
                assert(words@[k] == word_at(bytes@, k, little));
                assert(words@.contains(words@[k]));
            }
        }
        assert(r == activated_in(bytes@, little));
    }
    r
}

/// A window the compositor lists: its key, the application it belongs to
/// once named, and whether it is activated.
#[derive(Debug)]
pub struct Window {
    pub key: u64,
    pub app_id: Option<String>,
    pub activated: bool,
}

/// What the focus tracker knows of a window.
pub open spec fn window_view(w: Window) -> (u64, Option<Seq<char>>, bool) {
    (
        w.key,
        match w.app_id {
            Some(a) => Some(a@),
            None => None,
        },
        w.activated,
    )
}

/// Where the window `key` first stands, if it is listed.
pub open spec fn spot(s: Seq<(u64, Option<Seq<char>>, bool)>, key: u64) -> Option<int>
    decreases s.len(),
{
    if s.len() == 0 {
        None
    } else if s[0].0 == key {
        Some(0)
    } else {
        match spot(s.drop_first(), key) {
            Some(k) => Some(k + 1),
            None => None,
        }
    }
}

/// The windows the compositor lists and the one activated last.
#[derive(Debug)]
pub struct Focus {
    windows: Vec<Window>,
    focused: Option<u64>,
}

proof fn lemma_spot(s: Seq<(u64, Option<Seq<char>>, bool)>, key: u64)
    ensures
        match spot(s, key) {
            Some(k) => 0 <= k < s.len() && s[k].0 == key && forall|j: int| 0 <= j < k ==> s[j].0 != key,
            None => forall|j: int| 0 <= j < s.len() ==> s[j].0 != key,
        },
    decreases s.len(),
{
    if s.len() > 0 && s[0].0 != key {
        lemma_spot(s.drop_first(), key);
        assert forall|j: int| 0 < j < s.len() implies s[j] == s.drop_first()[j - 1] by {}
    }
}

/// Where `spot` finds a window is the one place to find it.
proof fn lemma_spot_is(s: Seq<(u64, Option<Seq<char>>, bool)>, key: u64, k: int)
    requires
        0 <= k < s.len(),
        s[k].0 == key,
        forall|j: int| 0 <= j < k ==> s[j].0 != key,
    ensures
        spot(s, key) == Some(k),
{
    lemma_spot(s, key);
    match spot(s, key) {
        Some(j) => {
            if j > k {
            }
        },
        None => {},
    }
}

impl Focus {
    /// The windows, in the order they were first listed.
    pub closed spec fn windows(self) -> Seq<(u64, Option<Seq<char>>, bool)> {
        self.windows@.map_values(|w: Window| window_view(w))
    }

    /// The window activated last, if any was.
    pub closed spec fn focused(self) -> Option<u64> {
        self.focused
    }

    /// The application of the window activated last, where that window is
    /// still listed and named.
    pub open spec fn focused_app_spec(self) -> Option<Seq<char>> {
        match self.focused() {
            Some(f) => match spot(self.windows(), f) {
                Some(k) => self.windows()[k].1,
                None => None,
            },
            None => None,
        }
    }

    /// No window yet.
    pub fn new() -> (r: Self)
        ensures
            r.windows() == Seq::<(u64, Option<Seq<char>>, bool)>::empty(),
            r.focused() is None,
    {
        let r = Focus { windows: Vec::new(), focused: None };
        assert(r.windows() =~= Seq::<(u64, Option<Seq<char>>, bool)>::empty());
        r
    }

    /// Where the window `key` is listed.
    fn find(&self, key: u64) -> (r: Option<usize>)
        ensures
            match r {
                Some(k) => k < self.windows@.len() && spot(self.windows(), key) == Some(k as int),
                None => spot(self.windows(), key) is None,
            },
    {
        let ghost view = self.windows();
        let mut i: usize = 0;
        while i < self.windows.len()
            invariant
                i <= self.windows@.len(),
                view == self.windows(),
                view.len() == self.windows@.len(),
                forall|j: int| 0 <= j < i ==> view[j].0 != key,
            decreases self.windows@.len() - i,
        {
            assert(view[i as int] == window_view(self.windows@[i as int]));
            if self.windows[i].key == key {
                proof {
                    lemma_spot_is(view, key, i as int);
                }
                return Some(i);
            }
            i += 1;
        }
        proof {
            lemma_spot(view, key);
        }
        None
    }

    /// A window was listed: it is known by `key`, not yet named nor
    /// activated, replacing what was known under that key.
    pub fn opened(&mut self, key: u64)
        ensures
            final(self).focused() == old(self).focused(),
            final(self).windows() == match spot(old(self).windows(), key) {
                Some(k) => old(self).windows().update(k, (key, None, false)),
                None => old(self).windows().push((key, None, false)),
            },
    {
        let fresh = Window { key, app_id: None, activated: false };
        match self.find(key) {
            Some(k) => {
                self.windows.set(k, fresh);
                assert(self.windows() =~= old(self).windows().update(k as int, (key, None, false)));
            },
            None => {
                self.windows.push(fresh);
                assert(self.windows() =~= old(self).windows().push((key, None, false)));
            },
        }
    }

    /// The window `key` belongs to `app_id`; a window not listed is left
    /// alone.
    pub fn named(&mut self, key: u64, app_id: String)
        ensures
            final(self).focused() == old(self).focused(),
            final(self).windows() == match spot(old(self).windows(), key) {
                Some(k) => old(self).windows().update(k, (key, Some(app_id@), old(self).windows()[k].2)),
                None => old(self).windows(),
            },
    {
        match self.find(key) {
            Some(k) => {
                let activated = self.windows[k].activated;
                let ghost named = (key, Some(app_id@), old(self).windows()[k as int].2);
                self.windows.set(k, Window { key, app_id: Some(app_id), activated });
                assert(self.windows() =~= old(self).windows().update(k as int, named));
            },
            None => {},
        }
    }

    /// The window `key` is gone. Answers whether it was listed.
    pub fn closed(&mut self, key: u64) -> (r: bool)
        ensures
            final(self).focused() == old(self).focused(),
            final(self).windows() == match spot(old(self).windows(), key) {
                Some(k) => old(self).windows().remove(k),
                None => old(self).windows(),
            },
            r == (spot(old(self).windows(), key) is Some),
    {
        match self.find(key) {
            Some(k) => {
                self.windows.remove(k);
                assert(self.windows() =~= old(self).windows().remove(k as int));
                true
            },
            None => false,
        }
    }

    /// The window `key` is now activated or not. An activated window takes
    /// the focus; answers whether the focus moved. A window not listed
    /// changes nothing.
    pub fn restated(&mut self, key: u64, activated: bool) -> (changed: bool)
        ensures
            match spot(old(self).windows(), key) {
                Some(k) => {
                    &&& final(self).windows() == old(self).windows().update(
                        k,
                        (key, old(self).windows()[k].1, activated),
                    )
                    &&& final(self).focused() == if activated {
                        Some(key)
                    } else {
                        old(self).focused()
                    }
                    &&& changed == (activated && old(self).focused() != Some(key))
                },
                None => final(self).windows() == old(self).windows() && final(self).focused()
                    == old(self).focused() && !changed,
            },
    {
        match self.find(key) {
            Some(k) => {
                let app_id = match &self.windows[k].app_id {
                    Some(a) => Some(a.clone()),
                    None => None,
                };
                let ghost was = old(self).windows()[k as int];
                self.windows.set(k, Window { key, app_id, activated });
                assert(self.windows() =~= old(self).windows().update(k as int, (key, was.1, activated)));
                if !activated {
                    return false;
                }
                let changed = match self.focused {
                    Some(f) => f != key,
                    None => true,
                };
                self.focused = Some(key);
                changed
            },
            None => false,
        }
    }

    /// The application of the window activated last.
    pub fn focused_app(&self) -> (r: Option<String>)
        ensures
            match r {
                Some(a) => self.focused_app_spec() == Some(a@),
                None => self.focused_app_spec() is None,
            },
    {
        let key = match self.focused {
            Some(key) => key,
            None => return None,
        };
        match self.find(key) {
            Some(k) => {
                assert(self.windows()[k as int] == window_view(self.windows@[k as int]));
                match &self.windows[k].app_id {
                    Some(a) => Some(a.clone()),
                    None => None,
                }
            },
            None => None,
        }
    }
}

/// Focus follows the window activated last: once a listed window is
/// activated, the focused application is the one it belongs to.
pub proof fn focus_follows_activation(
    windows: Seq<(u64, Option<Seq<char>>, bool)>,
    key: u64,
    k: int,
)
    requires
        spot(windows, key) == Some(k),
    ensures
        spot(windows.update(k, (key, windows[k].1, true)), key) == Some(k),
        windows.update(k, (key, windows[k].1, true))[k].1 == windows[k].1,
{
    lemma_spot(windows, key);
    let after = windows.update(k, (key, windows[k].1, true));
    assert forall|j: int| 0 <= j < k implies after[j].0 != key by {
        assert(after[j] == windows[j]);
    }
    lemma_spot_is(after, key, k);
}

/// A window that closed is no longer found, so its application is never
/// reported as focused again.
pub proof fn a_closed_window_is_forgotten(windows: Seq<(u64, Option<Seq<char>>, bool)>, key: u64, k: int)
    requires
        spot(windows, key) == Some(k),
        forall|a: int, b: int| 0 <= a < b < windows.len() ==> windows[a].0 != windows[b].0,
    ensures
        spot(windows.remove(k), key) is None,
{
    lemma_spot(windows, key);
    let after = windows.remove(k);
    assert forall|j: int| 0 <= j < after.len() implies after[j].0 != key by {
        if j < k {
            assert(after[j] == windows[j]);
        } else {
            assert(after[j] == windows[j + 1]);
        }
    }
    lemma_spot(after, key);
}

} // verus!
