//! Whether the desktop already has a shortcut that opens the popup.

use vstd::prelude::*;

use crate::control::TOGGLE;
use crate::text::{chars_of, equal, string_of, trim, trimmed, views};

verus! {

/// The applet's identifier, under which a sandboxed build runs.
pub const APP_ID: &'static str = "io.github.marcelogomes90.cosmic-ext-applet-clip-keep";

/// The program name used where the running executable's path is not known.
pub const PROGRAM: &'static str = "cosmic-ext-applet-clip-keep";

/// The command line the shortcut spawns: inside the sandbox, the sandbox's
/// launcher for the applet; otherwise the running executable, where its
/// path is known and absolute, else the program by name; always followed
/// by the toggle flag.
pub open spec fn command_text(sandboxed: bool, exe: Option<Seq<char>>) -> Seq<char> {
    let program = if sandboxed {
        "flatpak run "@ + APP_ID@
    } else {
        match exe {
            Some(path) => if path.len() > 0 && path[0] == '/' {
                path
            } else {
                PROGRAM@
            },
            None => PROGRAM@,
        }
    };
    program + " "@ + TOGGLE@
}

/// The command line the shortcut spawns, from whether this build runs in
/// the sandbox and where the running executable is.
pub fn command(sandboxed: bool, exe: Option<&str>) -> (r: String)
    ensures
        r@ == command_text(
            sandboxed,
            match exe {
                Some(path) => Some(path@),
                None => None,
            },
        ),
{
    let mut line: Vec<char> = if sandboxed {
        let mut words = chars_of("flatpak run ");
        let mut id = chars_of(APP_ID);
        words.append(&mut id);
        words
    } else {
        match exe {
            Some(path) => {
                let chars = chars_of(path);
                if chars.len() > 0 && chars[0] == '/' {
                    chars
                } else {
                    chars_of(PROGRAM)
                }
            },
            None => chars_of(PROGRAM),
        }
    };
    let ghost program = line@;
    line.push(' ');
    let mut flag = chars_of(TOGGLE);
    line.append(&mut flag);
    proof {
        reveal_strlit(" ");
        assert(line@ =~= program + " "@ + TOGGLE@);
    }
    string_of(line.as_slice())
}

/// The key combination asked for.
pub const COMBINATION: &'static str = "Super+v";

/// What registering the shortcut came to.
#[derive(Clone, Copy, Debug, PartialEq, Eq, Structural)]
pub enum Outcome {
    /// The shortcut was added.
    Added,
    /// A shortcut that opens the popup was there already.
    Present,
    /// The combination is bound to something else; it is left alone.
    Taken,
    /// The desktop's shortcut settings could not be read or written.
    Unavailable,
}

/// Whether one of the commands the desktop's shortcuts spawn is `command`,
/// surrounding whitespace aside.
pub open spec fn spawns(commands: Seq<Seq<char>>, command: Seq<char>) -> bool {
    exists|i: int| 0 <= i < commands.len() && trim(#[trigger] commands[i]) == trim(command)
}

/// Whether a shortcut already spawns `command`.
pub fn launches(commands: &[String], command: &str) -> (r: bool)
    ensures
        r == spawns(views(commands@), command@),
{
    let wanted = trimmed(chars_of(command).as_slice());
    let mut i: usize = 0;
    while i < commands.len()
        invariant
            i <= commands@.len(),
            wanted@ == trim(command@),
            forall|j: int| 0 <= j < i ==> trim(#[trigger] views(commands@)[j]) != trim(command@),
        decreases commands@.len() - i,
    {
        let existing = trimmed(chars_of(commands[i].as_str()).as_slice());
        assert(views(commands@)[i as int] == commands@[i as int]@);
        if equal(existing.as_slice(), wanted.as_slice()) {
            return true;
        }
        i += 1;
    }
    false
}

/// What registering comes to, from what the desktop's shortcuts hold: a
/// shortcut that already opens the popup wins; a combination bound to
/// anything else is left alone; otherwise the shortcut is added.
pub fn registration(launched: bool, occupied: bool) -> (r: Outcome)
    ensures
        r == if launched {
            Outcome::Present
        } else if occupied {
            Outcome::Taken
        } else {
            Outcome::Added
        },
{
    if launched {
        Outcome::Present
    } else if occupied {
        Outcome::Taken
    } else {
        Outcome::Added
    }
}

} // verus!
