//! Which keystroke pastes into the window that has focus: terminals take
//! another shortcut than everything else, and the XTerm family yet another.

use vstd::prelude::*;

use crate::text::{
    chars_of, cv, ends_with, equal, has_prefix, has_suffix, lower_all, pieces, slice_range,
    split_on, starts_with, to_lower_all, trim, trimmed,
};

verus! {

/// The keymap handed to the compositor: just the keys the paste
/// shortcuts need, with `v` at `PASTE_KEY` and `Insert` at `INSERT_KEY`
/// (each eight below its keycode here).
pub const KEYMAP: &'static str = r#"xkb_keymap {
    xkb_keycodes "clip-keep" {
        minimum = 8;
        maximum = 255;
        <LCTL> = 37;
        <LFSH> = 50;
        <AB05> = 55;
        <INS> = 118;
    };
    xkb_types "clip-keep" { include "complete" };
    xkb_compat "clip-keep" { include "complete" };
    xkb_symbols "clip-keep" {
        key <LCTL> { [ Control_L ] };
        key <LFSH> { [ Shift_L ] };
        key <AB05> { [ v, V ] };
        key <INS> { [ Insert ] };
        modifier_map Control { <LCTL> };
        modifier_map Shift { <LFSH> };
    };
};
"#;

/// The key code of `v` in the keymap handed to the compositor.
pub const PASTE_KEY: u32 = 47;

/// The key code of `Insert` in that keymap.
pub const INSERT_KEY: u32 = 110;

/// The modifier mask of Control.
pub const CONTROL: u32 = 4;

/// The modifier mask of Shift.
pub const SHIFT: u32 = 1;

/// The shortcut that pastes into an application.
#[derive(Clone, Copy, Debug, PartialEq, Eq, Structural)]
pub enum PasteShortcut {
    ControlV,
    ControlShiftV,
    ShiftInsert,
}

/// The standalone terminals known by name.
pub open spec fn terminal_names() -> Seq<Seq<char>> {
    seq![
        "alacritty"@, "aterm"@, "blackbox"@, "boxi"@, "cool-retro-term"@, "console"@,
        "contour"@, "cosmic-term"@, "cosmicterm"@, "ddterm"@, "deepin-terminal"@, "eterm"@,
        "foot"@, "footclient"@, "ghostty"@, "gnome-console"@, "gnome-terminal"@, "guake"@,
        "hyper"@, "kgx"@, "kitty"@, "konsole"@, "lilyterm"@, "lxterminal"@, "mate-terminal"@,
        "mlterm"@, "ptyxis"@, "qterminal"@, "rio"@, "roxterm"@, "rxvt"@, "sakura"@, "st"@,
        "tabby"@, "terminator"@, "terminology"@, "terminix"@, "tilix"@, "urxvt"@, "uxterm"@,
        "warp"@, "waveterm"@, "wezterm"@, "xfce4-terminal"@, "xterm"@, "yakuake"@,
    ]
}

/// Last components of an application id that name a build rather than
/// the application.
pub open spec fn trailing_segments() -> Seq<Seq<char>> {
    seq![
        "beta"@, "canary"@, "dev"@, "devel"@, "development"@, "gui"@, "nightly"@, "server"@,
    ]
}

/// The id folded to lower case, trimmed, and without a `.desktop` ending.
pub open spec fn normalised(app_id: Seq<char>) -> Seq<char> {
    let id = lower_all(trim(app_id));
    if ends_with(id, ".desktop"@) {
        id.take(id.len() - ".desktop"@.len())
    } else {
        id
    }
}

/// The last component of a dotted id that is not a build name, if any.
pub open spec fn core_name(segments: Seq<Seq<char>>) -> Option<Seq<char>>
    decreases segments.len(),
{
    if segments.len() == 0 {
        None
    } else if trailing_segments().contains(segments.last()) {
        core_name(segments.drop_last())
    } else {
        Some(segments.last())
    }
}

/// The first ending, of those a terminal's server or window adds, that
/// `name` has, in the order they are tried.
pub open spec fn suffix_of(name: Seq<char>) -> Option<Seq<char>> {
    if ends_with(name, "-server"@) {
        Some("-server"@)
    } else if ends_with(name, "_server"@) {
        Some("_server"@)
    } else if ends_with(name, "-gui"@) {
        Some("-gui"@)
    } else if ends_with(name, "_gui"@) {
        Some("_gui"@)
    } else {
        None
    }
}

/// `name` with process suffixes stripped for as long as one is there.
pub open spec fn without_suffixes(name: Seq<char>) -> Seq<char>
    decreases name.len(),
{
    match suffix_of(name) {
        Some(suffix) => if suffix.len() > 0 && ends_with(name, suffix) {
            without_suffixes(name.take(name.len() - suffix.len()))
        } else {
            name
        },
        None => name,
    }
}

/// Whether a bare application name is a terminal's.
pub open spec fn names_terminal(name: Seq<char>) -> bool {
    ||| terminal_names().contains(name)
    ||| name == "terminal"@
    ||| ends_with(name, "-terminal"@)
    ||| ends_with(name, "_terminal"@)
}

/// The shortcut a terminal with this application id pastes with, or `None`
/// where the id is not a terminal's.
pub open spec fn shortcut_for(app_id: Seq<char>) -> Option<PasteShortcut> {
    let id = normalised(app_id);
    if id.len() == 0 {
        None
    } else if starts_with(id, "dev.boxi.boxi."@) {
        Some(PasteShortcut::ControlShiftV)
    } else {
        match core_name(pieces(id, '.')) {
            None => None,
            Some(found) => {
                let name = without_suffixes(found);
                if !names_terminal(name) {
                    None
                } else if name == "xterm"@ || name == "uxterm"@ {
                    Some(PasteShortcut::ShiftInsert)
                } else {
                    Some(PasteShortcut::ControlShiftV)
                }
            },
        }
    }
}

/// The key and the modifier mask that make up a shortcut.
pub open spec fn stroke(shortcut: PasteShortcut) -> (u32, u32) {
    match shortcut {
        PasteShortcut::ControlV => (PASTE_KEY, CONTROL),
        PasteShortcut::ControlShiftV => (PASTE_KEY, CONTROL | SHIFT),
        PasteShortcut::ShiftInsert => (INSERT_KEY, SHIFT),
    }
}

/// Whether `name` is one of `names`.
fn listed(name: &[char], names: &[&str]) -> (r: bool)
    ensures
        r == names@.map_values(|n: &str| n@).contains(name@),
{
    let ghost all = names@.map_values(|n: &str| n@);
    let mut i: usize = 0;
    while i < names.len()
        invariant
            i <= names.len(),
            all == names@.map_values(|n: &str| n@),
            forall|j: int| 0 <= j < i ==> all[j] != name@,
        decreases names.len() - i,
    {
        let candidate = chars_of(names[i]);
        if equal(&candidate, name) {
            assert(all[i as int] == name@);
            return true;
        }
        i += 1;
    }
    false
}

/// The process suffix `name` ends with, as `suffix_of` picks it.
fn find_suffix(name: &[char]) -> (r: Option<Vec<char>>)
    ensures
        match r {
            Some(v) => suffix_of(name@) == Some(v@),
            None => suffix_of(name@) is None,
        },
{
    let suffixes: [&str; 4] = ["-server", "_server", "-gui", "_gui"];
    let mut i: usize = 0;
    while i < 4
        invariant
            i <= 4,
            suffixes@ == seq!["-server", "_server", "-gui", "_gui"],
            i > 0 ==> !ends_with(name@, "-server"@),
            i > 1 ==> !ends_with(name@, "_server"@),
            i > 2 ==> !ends_with(name@, "-gui"@),
            i > 3 ==> !ends_with(name@, "_gui"@),
        decreases 4 - i,
    {
        let candidate = chars_of(suffixes[i]);
        if has_suffix(name, &candidate) {
            return Some(candidate);
        }
        i += 1;
    }
    None
}

/// `name` with its process suffixes stripped.
fn strip_suffixes(name: Vec<char>) -> (r: Vec<char>)
    ensures
        r@ == without_suffixes(name@),
    decreases name@.len(),
{
    match find_suffix(&name) {
        Some(suffix) => {
            if suffix.len() > 0 && has_suffix(&name, &suffix) {
                let cut = slice_range(&name, 0, name.len() - suffix.len());
                assert(cut@ =~= name@.take(name@.len() - suffix@.len()));
                strip_suffixes(cut)
            } else {
                name
            }
        },
        None => name,
    }
}

/// The shortcut that pastes into a terminal with this application id, or
/// `None` where the id is not a terminal's.
pub fn terminal_shortcut(app_id: &str) -> (r: Option<PasteShortcut>)
    ensures
        r == shortcut_for(app_id@),
{
    let raw = chars_of(app_id);
    let kept = trimmed(&raw);
    let low = to_lower_all(&kept);
    let desktop = chars_of(".desktop");
    let id = if has_suffix(&low, &desktop) {
        slice_range(&low, 0, low.len() - desktop.len())
    } else {
        low
    };
    assert(id@ == normalised(app_id@)) by {
        if ends_with(lower_all(trim(app_id@)), ".desktop"@) {
            assert(id@ =~= lower_all(trim(app_id@)).take(
                lower_all(trim(app_id@)).len() - ".desktop"@.len(),
            ));
        }
    }
    if id.len() == 0 {
        return None;
    }
    let boxi = chars_of("dev.boxi.boxi.");
    if has_prefix(&id, &boxi) {
        return Some(PasteShortcut::ControlShiftV);
    }
    let segments = split_on(&id, '.');
    let trailing: [&str; 8] = [
        "beta",
        "canary",
        "dev",
        "devel",
        "development",
        "gui",
        "nightly",
        "server",
    ];
    assert(trailing@.map_values(|n: &str| n@) =~= trailing_segments());
    let mut k: usize = segments.len();
    assert(cv(segments@).take(k as int) =~= cv(segments@));
    while k > 0 && listed(&segments[k - 1], &trailing)
        invariant
            k <= segments.len(),
            trailing@.map_values(|n: &str| n@) == trailing_segments(),
            core_name(cv(segments@).take(k as int)) == core_name(pieces(id@, '.')),
            cv(segments@) == pieces(id@, '.'),
        decreases k,
    {
        proof {
            let before = cv(segments@).take(k as int);
            assert(before.last() == segments@[k - 1]@);
            assert(before.drop_last() =~= cv(segments@).take(k - 1));
        }
        k -= 1;
    }
    if k == 0 {
        assert(cv(segments@).take(0) =~= Seq::<Seq<char>>::empty());
        return None;
    }
    proof {
        let before = cv(segments@).take(k as int);
        assert(before.last() == segments@[k - 1]@);
    }
    let found = slice_range(&segments[k - 1], 0, segments[k - 1].len());
    assert(found@ =~= segments@[k - 1]@);
    let name = strip_suffixes(found);
    let names: [&str; 46] = [
        "alacritty",
        "aterm",
        "blackbox",
        "boxi",
        "cool-retro-term",
        "console",
        "contour",
        "cosmic-term",
        "cosmicterm",
        "ddterm",
        "deepin-terminal",
        "eterm",
        "foot",
        "footclient",
        "ghostty",
        "gnome-console",
        "gnome-terminal",
        "guake",
        "hyper",
        "kgx",
        "kitty",
        "konsole",
        "lilyterm",
        "lxterminal",
        "mate-terminal",
        "mlterm",
        "ptyxis",
        "qterminal",
        "rio",
        "roxterm",
        "rxvt",
        "sakura",
        "st",
        "tabby",
        "terminator",
        "terminology",
        "terminix",
        "tilix",
        "urxvt",
        "uxterm",
        "warp",
        "waveterm",
        "wezterm",
        "xfce4-terminal",
        "xterm",
        "yakuake",
    ];
    assert(names@.map_values(|n: &str| n@) =~= terminal_names());
    let terminal = listed(&name, &names) || equal(&name, &chars_of("terminal")) || has_suffix(
        &name,
        &chars_of("-terminal"),
    ) || has_suffix(&name, &chars_of("_terminal"));
    if !terminal {
        return None;
    }
    if equal(&name, &chars_of("xterm")) || equal(&name, &chars_of("uxterm")) {
        Some(PasteShortcut::ShiftInsert)
    } else {
        Some(PasteShortcut::ControlShiftV)
    }
}

/// Whether the application with this id is a terminal.
pub fn is_terminal(app_id: &str) -> (r: bool)
    ensures
        r == shortcut_for(app_id@) is Some,
{
    terminal_shortcut(app_id).is_some()
}

/// The shortcut that pastes into the application with this id: a
/// terminal's own, else Ctrl+V, which is also what an unknown window gets.
pub fn paste_shortcut(app_id: Option<&str>) -> (r: PasteShortcut)
    ensures
        r == match app_id {
            Some(id) => match shortcut_for(id@) {
                Some(shortcut) => shortcut,
                None => PasteShortcut::ControlV,
            },
            None => PasteShortcut::ControlV,
        },
{
    match app_id {
        Some(id) => match terminal_shortcut(id) {
            Some(shortcut) => shortcut,
            None => PasteShortcut::ControlV,
        },
        None => PasteShortcut::ControlV,
    }
}

/// The key to press and the modifiers to hold for a shortcut.
pub fn keystroke(shortcut: PasteShortcut) -> (r: (u32, u32))
    ensures
        r == stroke(shortcut),
{
    match shortcut {
        PasteShortcut::ControlV => (PASTE_KEY, CONTROL),
        PasteShortcut::ControlShiftV => (PASTE_KEY, CONTROL | SHIFT),
        PasteShortcut::ShiftInsert => (INSERT_KEY, SHIFT),
    }
}

/// A key event's time stamp from a monotonic clock reading: its whole
/// milliseconds, wrapped into a `u32` as the protocol's time stamps are.
pub fn moment_of(seconds: u64, nanoseconds: u64) -> (r: u32)
    requires
        seconds * 1000 + nanoseconds / 1_000_000 <= u64::MAX,
    ensures
        r == (seconds * 1000 + nanoseconds / 1_000_000) % (u32::MAX as int),
{
    let millis = seconds * 1000 + nanoseconds / 1_000_000;
    (millis % (u32::MAX as u64)) as u32
}

/// Whether `name` is a bare application name: lower-case ASCII letters,
/// digits and dashes only.
pub open spec fn bare_name(name: Seq<char>) -> bool {
    &&& name.len() > 0
    &&& forall|i: int| 0 <= i < name.len() ==> ('a' <= #[trigger] name[i] <= 'z' || '0' <= name[i] <= '9' || name[i] == '-')
}

/// The shortcut a bare name gets as an application id of its own.
proof fn lemma_bare_name(n: Seq<char>)
    requires
        bare_name(n),
        !trailing_segments().contains(n),
        suffix_of(n) is None,
    ensures
        shortcut_for(n) == if !names_terminal(n) {
            None
        } else if n == "xterm"@ || n == "uxterm"@ {
            Some(PasteShortcut::ShiftInsert)
        } else {
            Some(PasteShortcut::ControlShiftV)
        },
{
    reveal_strlit(".desktop");
    reveal_strlit("dev.boxi.boxi.");
    assert(!crate::text::is_ws(n[0]));
    assert(crate::text::trim_start(n) == n);
    assert(!crate::text::is_ws(n.last()));
    assert(crate::text::trim_end(n) == n);
    assert(trim(n) == n);
    assert(lower_all(n) =~= n);
    if ends_with(n, ".desktop"@) {
        assert(n.skip(n.len() - 8)[0] == n[n.len() - 8]);
    }
    assert(normalised(n) == n);
    if starts_with(n, "dev.boxi.boxi."@) {
        assert(n.take(14)[3] == n[3]);
    }
    crate::text::lemma_find_char_is(n, '.', n.len() as int);
    assert(pieces(n, '.') == seq![n]);
    assert(seq![n].last() == n);
    assert(core_name(seq![n]) == Some(n));
}

/// Where no dot comes before it, the first dot of `a.rest` ends `a`.
proof fn lemma_pieces_split(a: Seq<char>, rest: Seq<char>)
    requires
        forall|i: int| 0 <= i < a.len() ==> #[trigger] a[i] != '.',
    ensures
        pieces(a + seq!['.'] + rest, '.') == seq![a] + pieces(rest, '.'),
{
    let s = a + seq!['.'] + rest;
    assert forall|j: int| 0 <= j < a.len() implies s[j] != '.' by {
        assert(s[j] == a[j]);
    }
    crate::text::lemma_find_char_is(s, '.', a.len() as int);
    assert(s.take(a.len() as int) =~= a);
    assert(s.skip(a.len() + 1int) =~= rest);
}

/// A bare name is its own only piece.
proof fn lemma_pieces_bare(n: Seq<char>)
    requires
        bare_name(n),
    ensures
        pieces(n, '.') == seq![n],
{
    crate::text::lemma_find_char_is(n, '.', n.len() as int);
}

/// A reverse-domain application id is judged by its last part: an id
/// `a.b.name` of bare parts (as `org.kde.yakuake`) gets the shortcut that
/// `name` gets on its own, where `name` is not a build name like `beta`
/// and the id is not a `.desktop` file name or a `dev.boxi` one.
pub proof fn a_reverse_domain_id_is_judged_by_its_name(a: Seq<char>, b: Seq<char>, name: Seq<char>)
    requires
        bare_name(a),
        bare_name(b),
        bare_name(name),
        a != "dev"@,
        name != "desktop"@,
        !trailing_segments().contains(name),
    ensures
        shortcut_for(a + seq!['.'] + b + seq!['.'] + name) == shortcut_for(name),
{
    reveal_strlit(".desktop");
    reveal_strlit("dev.boxi.boxi.");
    reveal_strlit("dev");
    reveal_strlit("desktop");
    let tail = b + seq!['.'] + name;
    let id = a + seq!['.'] + tail;
    assert(a + seq!['.'] + b + seq!['.'] + name =~= id);
    let la = a.len() as int;
    let lb = b.len() as int;
    let ln = name.len() as int;
    assert(id.len() == la + lb + ln + 2);
    assert forall|i: int| 0 <= i < id.len() implies (#[trigger] id[i] == '.' || bare_name(seq![id[i]])) by {
        if i < la {
            assert(id[i] == a[i]);
        } else if la < i < la + 1 + lb {
            assert(id[i] == b[i - la - 1]);
        } else if i > la + 1 + lb {
            assert(id[i] == name[i - la - lb - 2]);
        }
    }
    // trimming and lowering change nothing
    assert(id[0] == a[0]);
    assert(id.last() == name.last());
    assert(crate::text::trim_start(id) == id);
    assert(crate::text::trim_end(id) == id);
    assert(lower_all(id) =~= id) by {
        assert forall|i: int| 0 <= i < id.len() implies #[trigger] crate::text::lower(id[i]) == id[i] by {
            assert(id[i] == '.' || bare_name(seq![id[i]]));
            assert(seq![id[i]][0] == id[i]);
        }
    }
    // not a `.desktop` name
    if ends_with(id, ".desktop"@) {
        let t = id.skip(id.len() - 8);
        assert(t[0] == id[id.len() - 8]);
        if ln >= 8 {
            assert(id[id.len() - 8] == name[ln - 8]);
        } else if ln == 7 {
            assert forall|j: int| 0 <= j < 7 implies name[j] == "desktop"@[j] by {
                assert(t[j + 1] == id[id.len() - 7 + j]);
                assert(id[id.len() - 7 + j] == name[j]);
            }
            assert(name =~= "desktop"@);
        } else {
            let k = 7 - ln;
            assert(t[k] == id[id.len() - ln - 1]);
            assert(id[id.len() - ln - 1] == '.');
        }
    }
    assert(normalised(id) == id);
    // not a `dev.boxi` name
    if starts_with(id, "dev.boxi.boxi."@) {
        let t = id.take(14);
        if la >= 4 {
            assert(t[3] == id[3] && id[3] == a[3]);
        } else if la == 3 {
            assert forall|j: int| 0 <= j < 3 implies a[j] == "dev"@[j] by {
                assert(t[j] == id[j] && id[j] == a[j]);
            }
            assert(a =~= "dev"@);
        } else {
            assert(t[la] == id[la]);
        }
    }
    assert forall|i: int| 0 <= i < la implies #[trigger] a[i] != '.' by {}
    assert forall|i: int| 0 <= i < lb implies #[trigger] b[i] != '.' by {}
    lemma_pieces_split(a, tail);
    lemma_pieces_split(b, name);
    lemma_pieces_bare(name);
    assert(pieces(id, '.') =~= seq![a, b, name]);
    assert(seq![a, b, name].last() == name);
    assert(core_name(seq![a, b, name]) == Some(name));
    // the name on its own
    assert(!crate::text::is_ws(name[0]));
    assert(crate::text::trim_start(name) == name);
    assert(!crate::text::is_ws(name.last()));
    assert(crate::text::trim_end(name) == name);
    assert(lower_all(name) =~= name);
    if ends_with(name, ".desktop"@) {
        assert(name.skip(ln - 8)[0] == name[ln - 8]);
    }
    if starts_with(name, "dev.boxi.boxi."@) {
        assert(name.take(14)[3] == name[3]);
    }
    assert(normalised(name) == name);
    assert(seq![name].last() == name);
    assert(core_name(seq![name]) == Some(name));
}

/// Whether `name` ends as a terminal's server or window process does: in
/// `-server`, `_server`, `-gui` or `_gui`.
pub open spec fn ends_as_a_process(name: Seq<char>) -> bool {
    let n = name.len() as int;
    ||| n >= 7 && (name[n - 7] == '-' || name[n - 7] == '_') && name[n - 6] == 's' && name[n - 5] == 'e'
        && name[n - 4] == 'r' && name[n - 3] == 'v' && name[n - 2] == 'e' && name[n - 1] == 'r'
    ||| n >= 4 && (name[n - 4] == '-' || name[n - 4] == '_') && name[n - 3] == 'g' && name[n - 2] == 'u'
        && name[n - 1] == 'i'
}

proof fn lemma_no_process_suffix(name: Seq<char>)
    requires
        !ends_as_a_process(name),
    ensures
        suffix_of(name) is None,
{
    reveal_strlit("-server");
    reveal_strlit("_server");
    reveal_strlit("-gui");
    reveal_strlit("_gui");
    let n = name.len() as int;
    if ends_with(name, "-server"@) || ends_with(name, "_server"@) {
        let t = name.skip(n - 7);
        assert(t[0] == name[n - 7] && t[1] == name[n - 6] && t[2] == name[n - 5] && t[3] == name[n - 4]);
        assert(t[4] == name[n - 3] && t[5] == name[n - 2] && t[6] == name[n - 1]);
    }
    if ends_with(name, "-gui"@) || ends_with(name, "_gui"@) {
        let t = name.skip(n - 4);
        assert(t[0] == name[n - 4] && t[1] == name[n - 3] && t[2] == name[n - 2] && t[3] == name[n - 1]);
    }
}

/// A known terminal's name, as an application id of its own.
proof fn lemma_known_terminal(n: Seq<char>, i: int)
    requires
        0 <= i < terminal_names().len(),
        terminal_names()[i] == n,
        bare_name(n),
        !trailing_segments().contains(n),
        !ends_as_a_process(n),
    ensures
        shortcut_for(n) == if n == "xterm"@ || n == "uxterm"@ {
            Some(PasteShortcut::ShiftInsert)
        } else {
            Some(PasteShortcut::ControlShiftV)
        },
{
    lemma_no_process_suffix(n);
    lemma_bare_name(n);
}

proof fn lemma_known_terminals_1()
    ensures
        shortcut_for("alacritty"@) == Some(PasteShortcut::ControlShiftV),
        shortcut_for("aterm"@) == Some(PasteShortcut::ControlShiftV),
        shortcut_for("blackbox"@) == Some(PasteShortcut::ControlShiftV),
        shortcut_for("boxi"@) == Some(PasteShortcut::ControlShiftV),
        shortcut_for("cool-retro-term"@) == Some(PasteShortcut::ControlShiftV),
        shortcut_for("console"@) == Some(PasteShortcut::ControlShiftV),
        shortcut_for("contour"@) == Some(PasteShortcut::ControlShiftV),
        shortcut_for("cosmic-term"@) == Some(PasteShortcut::ControlShiftV),
{
    reveal_strlit("beta");
    reveal_strlit("canary");
    reveal_strlit("dev");
    reveal_strlit("devel");
    reveal_strlit("development");
    reveal_strlit("gui");
    reveal_strlit("nightly");
    reveal_strlit("server");
    reveal_strlit("xterm");
    reveal_strlit("uxterm");
    assert(shortcut_for("alacritty"@) == Some(PasteShortcut::ControlShiftV)) by {
        reveal_strlit("alacritty");
        lemma_known_terminal("alacritty"@, 0);
    }
    assert(shortcut_for("aterm"@) == Some(PasteShortcut::ControlShiftV)) by {
        reveal_strlit("aterm");
        lemma_known_terminal("aterm"@, 1);
    }
    assert(shortcut_for("blackbox"@) == Some(PasteShortcut::ControlShiftV)) by {
        reveal_strlit("blackbox");
        lemma_known_terminal("blackbox"@, 2);
    }
    assert(shortcut_for("boxi"@) == Some(PasteShortcut::ControlShiftV)) by {
        reveal_strlit("boxi");
        lemma_known_terminal("boxi"@, 3);
    }
    assert(shortcut_for("cool-retro-term"@) == Some(PasteShortcut::ControlShiftV)) by {
        reveal_strlit("cool-retro-term");
        lemma_known_terminal("cool-retro-term"@, 4);
    }
    assert(shortcut_for("console"@) == Some(PasteShortcut::ControlShiftV)) by {
        reveal_strlit("console");
        lemma_known_terminal("console"@, 5);
    }
    assert(shortcut_for("contour"@) == Some(PasteShortcut::ControlShiftV)) by {
        reveal_strlit("contour");
        lemma_known_terminal("contour"@, 6);
    }
    assert(shortcut_for("cosmic-term"@) == Some(PasteShortcut::ControlShiftV)) by {
        reveal_strlit("cosmic-term");
        lemma_known_terminal("cosmic-term"@, 7);
    }
}

proof fn lemma_known_terminals_2()
    ensures
        shortcut_for("cosmicterm"@) == Some(PasteShortcut::ControlShiftV),
        shortcut_for("ddterm"@) == Some(PasteShortcut::ControlShiftV),
        shortcut_for("deepin-terminal"@) == Some(PasteShortcut::ControlShiftV),
        shortcut_for("eterm"@) == Some(PasteShortcut::ControlShiftV),
        shortcut_for("foot"@) == Some(PasteShortcut::ControlShiftV),
        shortcut_for("footclient"@) == Some(PasteShortcut::ControlShiftV),
        shortcut_for("ghostty"@) == Some(PasteShortcut::ControlShiftV),
        shortcut_for("gnome-console"@) == Some(PasteShortcut::ControlShiftV),
{
    reveal_strlit("beta");
    reveal_strlit("canary");
    reveal_strlit("dev");
    reveal_strlit("devel");
    reveal_strlit("development");
    reveal_strlit("gui");
    reveal_strlit("nightly");
    reveal_strlit("server");
    reveal_strlit("xterm");
    reveal_strlit("uxterm");
    assert(shortcut_for("cosmicterm"@) == Some(PasteShortcut::ControlShiftV)) by {
        reveal_strlit("cosmicterm");
        lemma_known_terminal("cosmicterm"@, 8);
    }
    assert(shortcut_for("ddterm"@) == Some(PasteShortcut::ControlShiftV)) by {
        reveal_strlit("ddterm");
        lemma_known_terminal("ddterm"@, 9);
    }
    assert(shortcut_for("deepin-terminal"@) == Some(PasteShortcut::ControlShiftV)) by {
        reveal_strlit("deepin-terminal");
        lemma_known_terminal("deepin-terminal"@, 10);
    }
    assert(shortcut_for("eterm"@) == Some(PasteShortcut::ControlShiftV)) by {
        reveal_strlit("eterm");
        lemma_known_terminal("eterm"@, 11);
    }
    assert(shortcut_for("foot"@) == Some(PasteShortcut::ControlShiftV)) by {
        reveal_strlit("foot");
        lemma_known_terminal("foot"@, 12);
    }
    assert(shortcut_for("footclient"@) == Some(PasteShortcut::ControlShiftV)) by {
        reveal_strlit("footclient");
        lemma_known_terminal("footclient"@, 13);
    }
    assert(shortcut_for("ghostty"@) == Some(PasteShortcut::ControlShiftV)) by {
        reveal_strlit("ghostty");
        lemma_known_terminal("ghostty"@, 14);
    }
    assert(shortcut_for("gnome-console"@) == Some(PasteShortcut::ControlShiftV)) by {
        reveal_strlit("gnome-console");
        lemma_known_terminal("gnome-console"@, 15);
    }
}

proof fn lemma_known_terminals_3()
    ensures
        shortcut_for("gnome-terminal"@) == Some(PasteShortcut::ControlShiftV),
        shortcut_for("guake"@) == Some(PasteShortcut::ControlShiftV),
        shortcut_for("hyper"@) == Some(PasteShortcut::ControlShiftV),
        shortcut_for("kgx"@) == Some(PasteShortcut::ControlShiftV),
        shortcut_for("kitty"@) == Some(PasteShortcut::ControlShiftV),
        shortcut_for("konsole"@) == Some(PasteShortcut::ControlShiftV),
        shortcut_for("lilyterm"@) == Some(PasteShortcut::ControlShiftV),
        shortcut_for("lxterminal"@) == Some(PasteShortcut::ControlShiftV),
{
    reveal_strlit("beta");
    reveal_strlit("canary");
    reveal_strlit("dev");
    reveal_strlit("devel");
    reveal_strlit("development");
    reveal_strlit("gui");
    reveal_strlit("nightly");
    reveal_strlit("server");
    reveal_strlit("xterm");
    reveal_strlit("uxterm");
    assert(shortcut_for("gnome-terminal"@) == Some(PasteShortcut::ControlShiftV)) by {
        reveal_strlit("gnome-terminal");
        lemma_known_terminal("gnome-terminal"@, 16);
    }
    assert(shortcut_for("guake"@) == Some(PasteShortcut::ControlShiftV)) by {
        reveal_strlit("guake");
        lemma_known_terminal("guake"@, 17);
    }
    assert(shortcut_for("hyper"@) == Some(PasteShortcut::ControlShiftV)) by {
        reveal_strlit("hyper");
        lemma_known_terminal("hyper"@, 18);
    }
    assert(shortcut_for("kgx"@) == Some(PasteShortcut::ControlShiftV)) by {
        reveal_strlit("kgx");
        lemma_known_terminal("kgx"@, 19);
    }
    assert(shortcut_for("kitty"@) == Some(PasteShortcut::ControlShiftV)) by {
        reveal_strlit("kitty");
        lemma_known_terminal("kitty"@, 20);
    }
    assert(shortcut_for("konsole"@) == Some(PasteShortcut::ControlShiftV)) by {
        reveal_strlit("konsole");
        lemma_known_terminal("konsole"@, 21);
    }
    assert(shortcut_for("lilyterm"@) == Some(PasteShortcut::ControlShiftV)) by {
        reveal_strlit("lilyterm");
        lemma_known_terminal("lilyterm"@, 22);
    }
    assert(shortcut_for("lxterminal"@) == Some(PasteShortcut::ControlShiftV)) by {
        reveal_strlit("lxterminal");
        lemma_known_terminal("lxterminal"@, 23);
    }
}

proof fn lemma_known_terminals_4()
    ensures
        shortcut_for("mate-terminal"@) == Some(PasteShortcut::ControlShiftV),
        shortcut_for("mlterm"@) == Some(PasteShortcut::ControlShiftV),
        shortcut_for("ptyxis"@) == Some(PasteShortcut::ControlShiftV),
        shortcut_for("qterminal"@) == Some(PasteShortcut::ControlShiftV),
        shortcut_for("rio"@) == Some(PasteShortcut::ControlShiftV),
        shortcut_for("roxterm"@) == Some(PasteShortcut::ControlShiftV),
        shortcut_for("rxvt"@) == Some(PasteShortcut::ControlShiftV),
        shortcut_for("sakura"@) == Some(PasteShortcut::ControlShiftV),
{
    reveal_strlit("beta");
    reveal_strlit("canary");
    reveal_strlit("dev");
    reveal_strlit("devel");
    reveal_strlit("development");
    reveal_strlit("gui");
    reveal_strlit("nightly");
    reveal_strlit("server");
    reveal_strlit("xterm");
    reveal_strlit("uxterm");
    assert(shortcut_for("mate-terminal"@) == Some(PasteShortcut::ControlShiftV)) by {
        reveal_strlit("mate-terminal");
        lemma_known_terminal("mate-terminal"@, 24);
    }
    assert(shortcut_for("mlterm"@) == Some(PasteShortcut::ControlShiftV)) by {
        reveal_strlit("mlterm");
        lemma_known_terminal("mlterm"@, 25);
    }
    assert(shortcut_for("ptyxis"@) == Some(PasteShortcut::ControlShiftV)) by {
        reveal_strlit("ptyxis");
        lemma_known_terminal("ptyxis"@, 26);
    }
    assert(shortcut_for("qterminal"@) == Some(PasteShortcut::ControlShiftV)) by {
        reveal_strlit("qterminal");
        lemma_known_terminal("qterminal"@, 27);
    }
    assert(shortcut_for("rio"@) == Some(PasteShortcut::ControlShiftV)) by {
        reveal_strlit("rio");
        lemma_known_terminal("rio"@, 28);
    }
    assert(shortcut_for("roxterm"@) == Some(PasteShortcut::ControlShiftV)) by {
        reveal_strlit("roxterm");
        lemma_known_terminal("roxterm"@, 29);
    }
    assert(shortcut_for("rxvt"@) == Some(PasteShortcut::ControlShiftV)) by {
        reveal_strlit("rxvt");
        lemma_known_terminal("rxvt"@, 30);
    }
    assert(shortcut_for("sakura"@) == Some(PasteShortcut::ControlShiftV)) by {
        reveal_strlit("sakura");
        lemma_known_terminal("sakura"@, 31);
    }
}

proof fn lemma_known_terminals_5()
    ensures
        shortcut_for("st"@) == Some(PasteShortcut::ControlShiftV),
        shortcut_for("tabby"@) == Some(PasteShortcut::ControlShiftV),
        shortcut_for("terminator"@) == Some(PasteShortcut::ControlShiftV),
        shortcut_for("terminology"@) == Some(PasteShortcut::ControlShiftV),
        shortcut_for("terminix"@) == Some(PasteShortcut::ControlShiftV),
        shortcut_for("tilix"@) == Some(PasteShortcut::ControlShiftV),
        shortcut_for("urxvt"@) == Some(PasteShortcut::ControlShiftV),
        shortcut_for("uxterm"@) == Some(PasteShortcut::ShiftInsert),
{
    reveal_strlit("beta");
    reveal_strlit("canary");
    reveal_strlit("dev");
    reveal_strlit("devel");
    reveal_strlit("development");
    reveal_strlit("gui");
    reveal_strlit("nightly");
    reveal_strlit("server");
    reveal_strlit("xterm");
    reveal_strlit("uxterm");
    assert(shortcut_for("st"@) == Some(PasteShortcut::ControlShiftV)) by {
        reveal_strlit("st");
        lemma_known_terminal("st"@, 32);
    }
    assert(shortcut_for("tabby"@) == Some(PasteShortcut::ControlShiftV)) by {
        reveal_strlit("tabby");
        lemma_known_terminal("tabby"@, 33);
    }
    assert(shortcut_for("terminator"@) == Some(PasteShortcut::ControlShiftV)) by {
        reveal_strlit("terminator");
        lemma_known_terminal("terminator"@, 34);
    }
    assert(shortcut_for("terminology"@) == Some(PasteShortcut::ControlShiftV)) by {
        reveal_strlit("terminology");
        lemma_known_terminal("terminology"@, 35);
    }
    assert(shortcut_for("terminix"@) == Some(PasteShortcut::ControlShiftV)) by {
        reveal_strlit("terminix");
        lemma_known_terminal("terminix"@, 36);
    }
    assert(shortcut_for("tilix"@) == Some(PasteShortcut::ControlShiftV)) by {
        reveal_strlit("tilix");
        lemma_known_terminal("tilix"@, 37);
    }
    assert(shortcut_for("urxvt"@) == Some(PasteShortcut::ControlShiftV)) by {
        reveal_strlit("urxvt");
        lemma_known_terminal("urxvt"@, 38);
    }
    assert(shortcut_for("uxterm"@) == Some(PasteShortcut::ShiftInsert)) by {
        reveal_strlit("uxterm");
        lemma_known_terminal("uxterm"@, 39);
    }
}

proof fn lemma_known_terminals_6()
    ensures
        shortcut_for("warp"@) == Some(PasteShortcut::ControlShiftV),
        shortcut_for("waveterm"@) == Some(PasteShortcut::ControlShiftV),
        shortcut_for("wezterm"@) == Some(PasteShortcut::ControlShiftV),
        shortcut_for("xfce4-terminal"@) == Some(PasteShortcut::ControlShiftV),
        shortcut_for("xterm"@) == Some(PasteShortcut::ShiftInsert),
        shortcut_for("yakuake"@) == Some(PasteShortcut::ControlShiftV),
{
    reveal_strlit("beta");
    reveal_strlit("canary");
    reveal_strlit("dev");
    reveal_strlit("devel");
    reveal_strlit("development");
    reveal_strlit("gui");
    reveal_strlit("nightly");
    reveal_strlit("server");
    reveal_strlit("xterm");
    reveal_strlit("uxterm");
    assert(shortcut_for("warp"@) == Some(PasteShortcut::ControlShiftV)) by {
        reveal_strlit("warp");
        lemma_known_terminal("warp"@, 40);
    }
    assert(shortcut_for("waveterm"@) == Some(PasteShortcut::ControlShiftV)) by {
        reveal_strlit("waveterm");
        lemma_known_terminal("waveterm"@, 41);
    }
    assert(shortcut_for("wezterm"@) == Some(PasteShortcut::ControlShiftV)) by {
        reveal_strlit("wezterm");
        lemma_known_terminal("wezterm"@, 42);
    }
    assert(shortcut_for("xfce4-terminal"@) == Some(PasteShortcut::ControlShiftV)) by {
        reveal_strlit("xfce4-terminal");
        lemma_known_terminal("xfce4-terminal"@, 43);
    }
    assert(shortcut_for("xterm"@) == Some(PasteShortcut::ShiftInsert)) by {
        reveal_strlit("xterm");
        lemma_known_terminal("xterm"@, 44);
    }
    assert(shortcut_for("yakuake"@) == Some(PasteShortcut::ControlShiftV)) by {
        reveal_strlit("yakuake");
        lemma_known_terminal("yakuake"@, 45);
    }
}

/// Every standalone terminal known by name gets a terminal's paste
/// shortcut: Shift+Insert for the XTerm family, Ctrl+Shift+V for each of
/// the others, named here one by one.
pub proof fn each_known_terminal_pastes_as_a_terminal()
    ensures
        shortcut_for("alacritty"@) == Some(PasteShortcut::ControlShiftV),
        shortcut_for("aterm"@) == Some(PasteShortcut::ControlShiftV),
        shortcut_for("blackbox"@) == Some(PasteShortcut::ControlShiftV),
        shortcut_for("boxi"@) == Some(PasteShortcut::ControlShiftV),
        shortcut_for("cool-retro-term"@) == Some(PasteShortcut::ControlShiftV),
        shortcut_for("console"@) == Some(PasteShortcut::ControlShiftV),
        shortcut_for("contour"@) == Some(PasteShortcut::ControlShiftV),
        shortcut_for("cosmic-term"@) == Some(PasteShortcut::ControlShiftV),
        shortcut_for("cosmicterm"@) == Some(PasteShortcut::ControlShiftV),
        shortcut_for("ddterm"@) == Some(PasteShortcut::ControlShiftV),
        shortcut_for("deepin-terminal"@) == Some(PasteShortcut::ControlShiftV),
        shortcut_for("eterm"@) == Some(PasteShortcut::ControlShiftV),
        shortcut_for("foot"@) == Some(PasteShortcut::ControlShiftV),
        shortcut_for("footclient"@) == Some(PasteShortcut::ControlShiftV),
        shortcut_for("ghostty"@) == Some(PasteShortcut::ControlShiftV),
        shortcut_for("gnome-console"@) == Some(PasteShortcut::ControlShiftV),
        shortcut_for("gnome-terminal"@) == Some(PasteShortcut::ControlShiftV),
        shortcut_for("guake"@) == Some(PasteShortcut::ControlShiftV),
        shortcut_for("hyper"@) == Some(PasteShortcut::ControlShiftV),
        shortcut_for("kgx"@) == Some(PasteShortcut::ControlShiftV),
        shortcut_for("kitty"@) == Some(PasteShortcut::ControlShiftV),
        shortcut_for("konsole"@) == Some(PasteShortcut::ControlShiftV),
        shortcut_for("lilyterm"@) == Some(PasteShortcut::ControlShiftV),
        shortcut_for("lxterminal"@) == Some(PasteShortcut::ControlShiftV),
        shortcut_for("mate-terminal"@) == Some(PasteShortcut::ControlShiftV),
        shortcut_for("mlterm"@) == Some(PasteShortcut::ControlShiftV),
        shortcut_for("ptyxis"@) == Some(PasteShortcut::ControlShiftV),
        shortcut_for("qterminal"@) == Some(PasteShortcut::ControlShiftV),
        shortcut_for("rio"@) == Some(PasteShortcut::ControlShiftV),
        shortcut_for("roxterm"@) == Some(PasteShortcut::ControlShiftV),
        shortcut_for("rxvt"@) == Some(PasteShortcut::ControlShiftV),
        shortcut_for("sakura"@) == Some(PasteShortcut::ControlShiftV),
        shortcut_for("st"@) == Some(PasteShortcut::ControlShiftV),
        shortcut_for("tabby"@) == Some(PasteShortcut::ControlShiftV),
        shortcut_for("terminator"@) == Some(PasteShortcut::ControlShiftV),
        shortcut_for("terminology"@) == Some(PasteShortcut::ControlShiftV),
        shortcut_for("terminix"@) == Some(PasteShortcut::ControlShiftV),
        shortcut_for("tilix"@) == Some(PasteShortcut::ControlShiftV),
        shortcut_for("urxvt"@) == Some(PasteShortcut::ControlShiftV),
        shortcut_for("uxterm"@) == Some(PasteShortcut::ShiftInsert),
        shortcut_for("warp"@) == Some(PasteShortcut::ControlShiftV),
        shortcut_for("waveterm"@) == Some(PasteShortcut::ControlShiftV),
        shortcut_for("wezterm"@) == Some(PasteShortcut::ControlShiftV),
        shortcut_for("xfce4-terminal"@) == Some(PasteShortcut::ControlShiftV),
        shortcut_for("xterm"@) == Some(PasteShortcut::ShiftInsert),
        shortcut_for("yakuake"@) == Some(PasteShortcut::ControlShiftV),
{
    lemma_known_terminals_1();
    lemma_known_terminals_2();
    lemma_known_terminals_3();
    lemma_known_terminals_4();
    lemma_known_terminals_5();
    lemma_known_terminals_6();
}

} // verus!
