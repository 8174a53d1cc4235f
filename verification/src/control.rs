//! The protocol the global shortcut speaks with the running applets over
//! their control sockets: one byte asks, one byte answers, and the order
//! in which the applets are asked.

use std::io::ErrorKind;

use vstd::prelude::*;

use crate::text::{chars_of, equal, find_char};

verus! {

/// The flag that makes the program ask a running applet to toggle its
/// popup rather than run one.
pub const TOGGLE: &'static str = "--toggle";

/// The extension of a control socket's file name.
pub const EXTENSION: &'static str = "sock";

/// Asks an applet to toggle, if its output has the active window.
pub const ASK: u8 = 116;

/// Asks an applet to toggle whatever output it is on.
pub const FORCE: u8 = 84;

/// The applet took the request.
pub const TAKEN: u8 = 49;

/// The applet declined it.
pub const DECLINED: u8 = 48;

/// What a request byte asks: `Some(false)` to toggle if the active window
/// is on the applet's output, `Some(true)` to toggle regardless, `None`
/// for a byte that asks nothing.
pub open spec fn request_spec(byte: u8) -> Option<bool> {
    if byte == ASK {
        Some(false)
    } else if byte == FORCE {
        Some(true)
    } else {
        None
    }
}

/// Reads a request byte; see `request_spec`.
pub fn request_of(byte: u8) -> (r: Option<bool>)
    ensures
        r == request_spec(byte),
{
    if byte == ASK {
        Some(false)
    } else if byte == FORCE {
        Some(true)
    } else {
        None
    }
}

/// The byte that answers a request.
pub fn reply_of(taken: bool) -> (r: u8)
    ensures
        r == if taken {
            TAKEN
        } else {
            DECLINED
        },
{
    if taken {
        TAKEN
    } else {
        DECLINED
    }
}

/// How an applet answered, or why it did not.
#[derive(Clone, Copy, Debug, PartialEq, Eq, Structural)]
pub enum Answer {
    /// It took the request.
    Taken,
    /// It declined it.
    Declined,
    /// Nothing listens on the socket any more.
    Gone,
    /// It could not be reached, or did not answer.
    Unclear,
}

/// The answer a reply byte gives: only the taken byte takes the request.
pub fn answer_of(reply: u8) -> (r: Answer)
    ensures
        r == if reply == TAKEN {
            Answer::Taken
        } else {
            Answer::Declined
        },
{
    if reply == TAKEN {
        Answer::Taken
    } else {
        Answer::Declined
    }
}

/// The kinds of I/O error the control protocol tells apart.
#[derive(Clone, Copy, Debug, PartialEq, Eq, Structural)]
pub enum IoKind {
    NotFound,
    ConnectionRefused,
    Other,
}

/// What `std::io::Error::kind` says of an error, as far as the protocol
/// tells kinds apart.
pub uninterp spec fn io_kind(error: std::io::Error) -> IoKind;

/// `std::io::Error::kind`, told apart as `IoKind`.
#[verifier::external_body]
fn kind_of(error: &std::io::Error) -> (r: IoKind)
    ensures
        r == io_kind(*error),
{
    match error.kind() {
        ErrorKind::NotFound => IoKind::NotFound,
        ErrorKind::ConnectionRefused => IoKind::ConnectionRefused,
        _ => IoKind::Other,
    }
}

/// Whether a failed connection means nothing listens on the socket any
/// more: it is not there, or nothing accepts on it.
pub fn abandoned(error: &std::io::Error) -> (r: bool)
    ensures
        r == (io_kind(*error) == IoKind::NotFound || io_kind(*error) == IoKind::ConnectionRefused),
{
    match kind_of(error) {
        IoKind::NotFound | IoKind::ConnectionRefused => true,
        IoKind::Other => false,
    }
}

/// The index of the last `c` in `s`, if there is one.
pub open spec fn last_index(s: Seq<char>, c: char) -> Option<int>
    decreases s.len(),
{
    if s.len() == 0 {
        None
    } else if s.last() == c {
        Some(s.len() - 1)
    } else {
        last_index(s.drop_last(), c)
    }
}

/// The extension of a file name as `Path::extension` finds it: what
/// follows its last dot, where that dot is not its first character, and
/// none for `..`.
pub open spec fn extension_of(name: Seq<char>) -> Option<Seq<char>> {
    if name == ".."@ {
        None
    } else {
        match last_index(name, '.') {
            Some(i) => if i > 0 {
                Some(name.skip(i + 1))
            } else {
                None
            },
            None => None,
        }
    }
}

/// Whether a file in the control directory is a control socket, by its
/// name.
pub fn is_socket_name(file_name: &str) -> (r: bool)
    ensures
        r == (extension_of(file_name@) == Some(EXTENSION@)),
{
    let name = chars_of(file_name);
    if equal(name.as_slice(), chars_of("..").as_slice()) {
        return false;
    }
    let mut i: usize = name.len();
    assert(name@.take(name@.len() as int) =~= name@);
    while i > 0 && name[i - 1] != '.'
        invariant
            i <= name@.len(),
            name@ == file_name@,
            last_index(name@.take(i as int), '.') == last_index(name@, '.'),
        decreases i,
    {
        proof {
            assert(name@.take(i as int).drop_last() =~= name@.take(i - 1));
        }
        i -= 1;
    }
    proof {
        assert(name@.take(name@.len() as int) =~= name@);
    }
    if i <= 1 {
        proof {
            if i == 1 {
                assert(name@.take(1).last() == '.');
            } else {
                assert(name@.take(0) =~= Seq::<char>::empty());
            }
        }
        return false;
    }
    proof {
        assert(name@.take(i as int).last() == '.');
    }
    let ext = crate::text::slice_range(name.as_slice(), i, name.len());
    assert(ext@ =~= name@.skip(i as int));
    equal(ext.as_slice(), chars_of(EXTENSION).as_slice())
}

/// What the program does next to toggle a popup.
#[derive(Clone, Copy, Debug, PartialEq, Eq, Structural)]
pub enum Step {
    /// Send `request` to the applet on the socket at `socket`.
    Ask { socket: usize, request: u8 },
    /// Remove the socket at `socket`; nothing listens on it.
    Remove { socket: usize },
    /// Stop: whether an applet took the request.
    Done(bool),
}

/// Asking the applets in turn: every socket once with a plain request, an
/// abandoned one removed on the way; where none took it, those that
/// declined once more, this time to toggle regardless.
pub struct Toggle {
    count: usize,
    next: usize,
    forcing: bool,
    declined: Vec<usize>,
    forced: usize,
    done: Option<bool>,
}

impl Toggle {
    /// How many sockets there are.
    pub closed spec fn count(self) -> nat {
        self.count as nat
    }

    /// The socket asked next, or last asked, in the plain pass.
    pub closed spec fn at(self) -> nat {
        self.next as nat
    }

    /// Whether the pass that forces has begun.
    pub closed spec fn forcing(self) -> bool {
        self.forcing
    }

    /// The sockets that declined, in order.
    pub closed spec fn declined(self) -> Seq<usize> {
        self.declined@
    }

    /// How far the pass that forces has come.
    pub closed spec fn forced(self) -> nat {
        self.forced as nat
    }

    /// The outcome, once there is one.
    pub closed spec fn outcome(self) -> Option<bool> {
        self.done
    }

    /// The toggle is consistent: the plain pass stays within the sockets,
    /// the sockets that declined are among them and were asked, in order,
    /// and the forced pass stays within those.
    pub open spec fn wf(self) -> bool {
        &&& self.at() <= self.count()
        &&& forall|k: int| 0 <= k < self.declined().len() ==> #[trigger] self.declined()[k] < self.at()
        &&& forall|a: int, b: int| 0 <= a < b < self.declined().len() ==> #[trigger] self.declined()[a] < #[trigger] self.declined()[b]
        &&& self.forced() <= self.declined().len()
        &&& self.forcing() ==> self.at() == self.count()
    }

    /// The step to take in the state `self`: the next plain request, or
    /// the next forced one, or the end.
    pub open spec fn pending(self) -> Step {
        match self.outcome() {
            Some(taken) => Step::Done(taken),
            None => if !self.forcing() {
                if self.at() < self.count() {
                    Step::Ask { socket: self.at() as usize, request: ASK }
                } else if self.declined().len() > 0 {
                    Step::Ask { socket: self.declined()[0], request: FORCE }
                } else {
                    Step::Done(false)
                }
            } else if self.forced() < self.declined().len() {
                Step::Ask { socket: self.declined()[self.forced() as int], request: FORCE }
            } else {
                Step::Done(false)
            },
        }
    }

    /// Starts on `count` sockets; answers the first step.
    pub fn new(count: usize) -> (r: (Self, Step))
        ensures
            r.0.wf(),
            r.0.count() == count,
            r.0.at() == 0,
            !r.0.forcing(),
            r.0.declined() == Seq::<usize>::empty(),
            r.0.forced() == 0,
            r.0.outcome() is None,
            r.1 == r.0.pending(),
    {
        let toggle = Toggle {
            count,
            next: 0,
            forcing: false,
            declined: Vec::new(),
            forced: 0,
            done: None,
        };
        let step = toggle.step();
        (toggle, step)
    }

    /// The step to take now.
    fn step(&self) -> (r: Step)
        requires
            self.wf(),
        ensures
            r == self.pending(),
    {
        if let Some(taken) = self.done {
            return Step::Done(taken);
        }
        if !self.forcing {
            if self.next < self.count {
                return Step::Ask { socket: self.next, request: ASK };
            }
            if self.declined.len() > 0 {
                return Step::Ask { socket: self.declined[0], request: FORCE };
            }
            return Step::Done(false);
        }
        if self.forced < self.declined.len() {
            Step::Ask { socket: self.declined[self.forced], request: FORCE }
        } else {
            Step::Done(false)
        }
    }

    /// The applet asked in the last step answered `answer`; answers the
    /// next step. A plain request taken ends the toggle; one declined is
    /// remembered for the pass that forces; an abandoned socket is
    /// removed; a socket that gave no answer is passed over. In the pass
    /// that forces, a request taken ends the toggle and anything else
    /// moves on to the next socket that declined.
    pub fn answered(&mut self, answer: Answer) -> (r: Step)
        requires
            old(self).wf(),
            old(self).pending() is Ask,
        ensures
            final(self).wf(),
            final(self).count() == old(self).count(),
            answer == Answer::Taken ==> final(self).outcome() == Some(true) && r == Step::Done(true),
            !old(self).forcing() && old(self).at() < old(self).count() ==> {
                &&& final(self).at() == old(self).at() + 1
                &&& !final(self).forcing()
                &&& answer != Answer::Taken ==> final(self).outcome() is None
                &&& final(self).declined() == if answer == Answer::Declined {
                    old(self).declined().push(old(self).at() as usize)
                } else {
                    old(self).declined()
                }
                &&& answer == Answer::Gone ==> r == Step::Remove { socket: old(self).at() as usize }
                &&& answer != Answer::Gone && answer != Answer::Taken ==> r == final(self).pending()
            },
            old(self).forcing() || old(self).at() == old(self).count() ==> {
                &&& final(self).forcing()
                &&& final(self).at() == old(self).at()
                &&& final(self).declined() == old(self).declined()
                &&& answer != Answer::Taken ==> final(self).outcome() is None && final(self).forced()
                    == (if old(self).forcing() {
                    old(self).forced()
                } else {
                    0
                }) + 1 && r == final(self).pending()
            },
    {
        if !self.forcing && self.next < self.count {
            let asked = self.next;
            self.next = self.next + 1;
            match answer {
                Answer::Taken => {
                    self.done = Some(true);
                    return Step::Done(true);
                },
                Answer::Declined => {
                    self.declined.push(asked);
                },
                Answer::Gone => {
                    return Step::Remove { socket: asked };
                },
                Answer::Unclear => {},
            }
            return self.step();
        }
        if !self.forcing {
            self.forcing = true;
            self.forced = 0;
        }
        match answer {
            Answer::Taken => {
                self.done = Some(true);
                Step::Done(true)
            },
            _ => {
                let total = self.declined.len();
                assert(self.forced < total);
                self.forced = self.forced + 1;
                self.step()
            },
        }
    }

    /// The socket of the last step was removed; answers the next step.
    pub fn removed(&self) -> (r: Step)
        requires
            self.wf(),
        ensures
            r == self.pending(),
    {
        self.step()
    }
}

/// Only applets that declined are asked to toggle regardless, in the
/// order they declined; a plain request goes to the socket whose turn it
/// is.
pub proof fn only_decliners_are_forced(t: Toggle)
    requires
        t.wf(),
    ensures
        t.pending() matches Step::Ask { socket, request } ==> ((request == FORCE
            ==> t.declined().contains(socket)) && (request == ASK ==> socket == t.at() && t.at()
            < t.count())),
{
    if t.outcome() is None && !t.forcing() && t.at() >= t.count() && t.declined().len() > 0 {
        assert(t.declined().contains(t.declined()[0]));
    }
    if t.outcome() is None && t.forcing() && t.forced() < t.declined().len() {
        assert(t.declined().contains(t.declined()[t.forced() as int]));
    }
}

} // verus!
