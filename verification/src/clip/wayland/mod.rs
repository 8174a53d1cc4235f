//! Talking to the compositor: where its socket is, what went wrong when it
//! could not be reached, and the pipes clipboard contents travel through.

pub mod reader;
pub mod toplevel;
pub mod typist;
pub mod writer;

use vstd::prelude::*;

use crate::text::{chars_of, string_of};

verus! {

/// Why clipboard capture could not start.
#[derive(Clone, Debug, PartialEq, Eq)]
pub enum SetupError {
    /// No compositor socket answered; what each attempt said.
    NoCompositor(String),
    /// The compositor offers no data-control protocol.
    NoDataControl,
    /// The compositor reported no seat.
    NoSeat,
    /// The Wayland handshake failed.
    Protocol(String),
}

/// What a setup error says, in words.
pub open spec fn setup_message(error: SetupError) -> Seq<char> {
    match error {
        SetupError::NoCompositor(detail) => "could not reach the compositor: "@ + detail@,
        SetupError::NoDataControl => "the compositor did not offer a data-control protocol, which usually means this build is sandboxed"@,
        SetupError::NoSeat => "the compositor reported no seat"@,
        SetupError::Protocol(detail) => "the Wayland handshake failed: "@ + detail@,
    }
}

/// `a` followed by `b`.
fn concat(a: &str, b: &str) -> (r: String)
    ensures
        r@ == a@ + b@,
{
    let mut chars = chars_of(a);
    let mut more = chars_of(b);
    chars.append(&mut more);
    string_of(chars.as_slice())
}

impl SetupError {
    /// What the error says, in words.
    pub fn describe(&self) -> (r: String)
        ensures
            r@ == setup_message(*self),
    {
        match self {
            SetupError::NoCompositor(detail) => concat("could not reach the compositor: ", detail.as_str()),
            SetupError::NoDataControl => string_of(
                chars_of(
                    "the compositor did not offer a data-control protocol, which usually means this build is sandboxed",
                ).as_slice(),
            ),
            SetupError::NoSeat => string_of(chars_of("the compositor reported no seat").as_slice()),
            SetupError::Protocol(detail) => concat("the Wayland handshake failed: ", detail.as_str()),
        }
    }
}

/// The attempts joined by `"; "`.
pub open spec fn joined_attempts(attempts: Seq<Seq<char>>) -> Seq<char>
    decreases attempts.len(),
{
    if attempts.len() == 0 {
        seq![]
    } else if attempts.len() == 1 {
        attempts[0]
    } else {
        joined_attempts(attempts.drop_last()) + "; "@ + attempts.last()
    }
}

/// The error when no compositor socket answered: what each attempt said,
/// or, where there was nothing to try, that the runtime directory is not
/// known.
pub fn no_compositor(attempts: &[String]) -> (r: SetupError)
    ensures
        r matches SetupError::NoCompositor(detail) && detail@ == if attempts@.len() == 0 {
            "XDG_RUNTIME_DIR is not set"@
        } else {
            joined_attempts(crate::text::views(attempts@))
        },
{
    if attempts.len() == 0 {
        return SetupError::NoCompositor(string_of(chars_of("XDG_RUNTIME_DIR is not set").as_slice()));
    }
    let mut text = chars_of(attempts[0].as_str());
    let mut i: usize = 1;
    assert(crate::text::views(attempts@).take(1) =~= seq![attempts@[0]@]);
    while i < attempts.len()
        invariant
            1 <= i <= attempts@.len(),
            text@ == joined_attempts(crate::text::views(attempts@).take(i as int)),
        decreases attempts@.len() - i,
    {
        proof {
            let v = crate::text::views(attempts@);
            assert(v.take(i + 1).drop_last() =~= v.take(i as int));
            assert(v.take(i + 1).last() == attempts@[i as int]@);
        }
        let mut sep = chars_of("; ");
        text.append(&mut sep);
        let mut next = chars_of(attempts[i].as_str());
        text.append(&mut next);
        i += 1;
    }
    assert(crate::text::views(attempts@).take(i as int) =~= crate::text::views(attempts@));
    SetupError::NoCompositor(string_of(text.as_slice()))
}

/// `base` joined with `name` as a path: `name` alone where it is absolute,
/// otherwise the two with one separator between them.
pub open spec fn joined_path(base: Seq<char>, name: Seq<char>) -> Seq<char> {
    if name.len() > 0 && name[0] == '/' {
        name
    } else if base.len() == 0 || base.last() == '/' {
        base + name
    } else {
        base + seq!['/'] + name
    }
}

/// `base` joined with `name` as a path.
pub(crate) fn join_path(base: &str, name: &str) -> (r: Vec<char>)
    ensures
        r@ == joined_path(base@, name@),
{
    let mut tail = chars_of(name);
    if tail.len() > 0 && tail[0] == '/' {
        return tail;
    }
    let mut path = chars_of(base);
    if !(path.len() == 0 || path[path.len() - 1] == '/') {
        path.push('/');
    }
    path.append(&mut tail);
    path
}

/// The socket names tried after the named display, in order.
pub open spec fn numbered() -> Seq<Seq<char>> {
    seq![
        "wayland-0"@, "wayland-1"@, "wayland-2"@, "wayland-3"@, "wayland-4"@, "wayland-5"@,
        "wayland-6"@, "wayland-7"@, "wayland-8"@,
    ]
}

/// `paths` with `path` added at the end, unless it is there already.
pub open spec fn add_path(paths: Seq<Seq<char>>, path: Seq<char>) -> Seq<Seq<char>> {
    if paths.contains(path) {
        paths
    } else {
        paths.push(path)
    }
}

/// The numbered sockets under `dir` added to `paths` one by one.
pub open spec fn sweep(paths: Seq<Seq<char>>, dir: Seq<char>, names: Seq<Seq<char>>) -> Seq<Seq<char>>
    decreases names.len(),
{
    if names.len() == 0 {
        paths
    } else {
        add_path(sweep(paths, dir, names.drop_last()), joined_path(dir, names.last()))
    }
}

/// The compositor sockets worth trying, before checking which exist: the
/// named display first, then `wayland-0` to `wayland-8` under the runtime
/// directory, none twice (paths compared as they are spelled).
pub open spec fn candidate_paths(runtime_dir: Seq<char>, display: Option<Seq<char>>) -> Seq<Seq<char>> {
    let first = match display {
        Some(d) => seq![joined_path(runtime_dir, d)],
        None => seq![],
    };
    sweep(first, runtime_dir, numbered())
}

/// Whether `path` is among `paths`.
fn holds_path(paths: &Vec<Vec<char>>, path: &[char]) -> (r: bool)
    ensures
        r == crate::text::cv(paths@).contains(path@),
{
    let mut i: usize = 0;
    while i < paths.len()
        invariant
            i <= paths@.len(),
            forall|j: int| 0 <= j < i ==> crate::text::cv(paths@)[j] != path@,
        decreases paths@.len() - i,
    {
        if crate::text::equal(paths[i].as_slice(), path) {
            assert(crate::text::cv(paths@)[i as int] == path@);
            return true;
        }
        i += 1;
    }
    false
}

/// The compositor sockets worth trying under a known runtime directory.
fn candidates_in(runtime_dir: &str, display: Option<&str>) -> (r: Vec<String>)
    ensures
        crate::text::views(r@) == candidate_paths(
            runtime_dir@,
            match display {
                Some(d) => Some(d@),
                None => None,
            },
        ),
{
    let mut paths: Vec<Vec<char>> = Vec::new();
    if let Some(d) = display {
        paths.push(join_path(runtime_dir, d));
    }
    let ghost first = crate::text::cv(paths@);
    let names: [&str; 9] = [
        "wayland-0",
        "wayland-1",
        "wayland-2",
        "wayland-3",
        "wayland-4",
        "wayland-5",
        "wayland-6",
        "wayland-7",
        "wayland-8",
    ];
    assert(names@.map_values(|n: &str| n@) =~= numbered());
    let mut i: usize = 0;
    assert(numbered().take(0) =~= Seq::<Seq<char>>::empty());
    while i < 9
        invariant
            i <= 9,
            names@.map_values(|n: &str| n@) == numbered(),
            crate::text::cv(paths@) == sweep(first, runtime_dir@, numbered().take(i as int)),
        decreases 9 - i,
    {
        proof {
            assert(numbered().take(i + 1).drop_last() =~= numbered().take(i as int));
            assert(numbered().take(i + 1).last() == names@[i as int]@);
        }
        let path = join_path(runtime_dir, names[i]);
        if !holds_path(&paths, path.as_slice()) {
            let ghost prev = paths@;
            paths.push(path);
            assert(crate::text::cv(paths@) =~= crate::text::cv(prev).push(path@));
        }
        i += 1;
    }
    assert(numbered().take(9) =~= numbered());
    proof {
        match display {
            Some(d) => assert(first =~= seq![joined_path(runtime_dir@, d@)]),
            None => assert(first =~= Seq::<Seq<char>>::empty()),
        }
    }
    crate::text::strings_of_all(paths.as_slice())
}

/// The compositor sockets worth trying, in order; see `candidate_paths`.
/// Without a runtime directory there is nowhere to look, and nothing is
/// tried, whatever display is named.
pub fn candidates(runtime_dir: Option<&str>, display: Option<&str>) -> (r: Vec<String>)
    ensures
        runtime_dir is None ==> r@.len() == 0,
        runtime_dir matches Some(dir) ==> crate::text::views(r@) == candidate_paths(
            dir@,
            match display {
                Some(d) => Some(d@),
                None => None,
            },
        ),
{
    match runtime_dir {
        Some(dir) => candidates_in(dir, display),
        None => Vec::new(),
    }
}

/// Sweeping only adds: what was there stays, in place, and nothing is
/// added twice.
proof fn lemma_sweep(paths: Seq<Seq<char>>, dir: Seq<char>, names: Seq<Seq<char>>)
    requires
        forall|a: int, b: int| 0 <= a < b < paths.len() ==> #[trigger] paths[a] != #[trigger] paths[b],
    ensures
        sweep(paths, dir, names).len() >= paths.len(),
        forall|k: int| 0 <= k < paths.len() ==> #[trigger] sweep(paths, dir, names)[k] == paths[k],
        forall|a: int, b: int|
            0 <= a < b < sweep(paths, dir, names).len() ==> #[trigger] sweep(paths, dir, names)[a]
                != #[trigger] sweep(paths, dir, names)[b],
    decreases names.len(),
{
    if names.len() > 0 {
        lemma_sweep(paths, dir, names.drop_last());
        let before = sweep(paths, dir, names.drop_last());
        let path = joined_path(dir, names.last());
        if !before.contains(path) {
            let after = before.push(path);
            assert forall|a: int, b: int| 0 <= a < b < after.len() implies #[trigger] after[a]
                != #[trigger] after[b] by {
                if b == before.len() {
                    assert(after[a] == before[a]);
                    assert(before.contains(before[a]));
                } else {
                    assert(after[a] == before[a] && after[b] == before[b]);
                }
            }
        }
    }
}

/// The display the session names is tried first, and no socket is tried
/// twice.
pub proof fn the_named_display_comes_first(runtime_dir: Seq<char>, display: Seq<char>)
    ensures
        candidate_paths(runtime_dir, Some(display)).len() > 0,
        candidate_paths(runtime_dir, Some(display))[0] == joined_path(runtime_dir, display),
        forall|a: int, b: int|
            0 <= a < b < candidate_paths(runtime_dir, Some(display)).len() ==> #[trigger] candidate_paths(
                runtime_dir,
                Some(display),
            )[a] != #[trigger] candidate_paths(runtime_dir, Some(display))[b],
{
    lemma_sweep(seq![joined_path(runtime_dir, display)], runtime_dir, numbered());
}

} // verus!
